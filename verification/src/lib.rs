pub mod parsing;
pub mod regex;
pub mod heap;
pub mod paxos;
pub mod event_loop;
pub mod timer_loop;
pub mod counting_sort;
pub mod hex_dump;
