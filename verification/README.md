# rustlab

A collection of small systems and algorithms pieces, with their behaviour
stated as contracts and proved.

- `src/parsing`: parser combinators over string slices (`elem`, `satisfies`,
  `many`, `some`, `alternate`, `chain`, ...).
- `src/regex`: a tiny regular-expression language (symbols, groups `( )`,
  alternation `|`, repetition `*` and `+`): its syntax tree, a parser from
  text to trees, matchers built from trees, and line selection for a
  `grep`-like tool.
- `src/heap.rs`: in-place heap sort over a slice.
- `src/counting_sort.rs`: counting sort yielding values one at a time.
- `src/paxos`: the follower role of single-decree Paxos.
- `src/event_loop.rs`, `src/timer_loop.rs`: the decisions of two event
  loops (which event runs next, what becomes of it after its callback).
- `src/hex_dump.rs`: the text form of a signature.

`app/` holds the programs around the library: the `grep` command line, the
event-loop runners (which run callbacks and catch their panics), an `epoll`
file monitor, `evdev` echo and emit tools, a PKCS#11 signing tool and a
C-callable `say_hello`.
