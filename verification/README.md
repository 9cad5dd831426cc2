# Esoteric Webb

A narrative direction engine for a CRPG composed from separately deployed
"primal" services. The authored narrative is a graph of scenes; the
traversal state (knowledge, inventory, flags, trust, conditions, arc
phases) decides which exits open, and a director turns player input into
outcomes.

The library in `src/` is written in Verus and verified: every public
function but the clock reading `epoch_ms` (of whose result nothing can be
said) carries a contract over a mathematical model of its data.

- `narrative/`: the graph, predicates and effects, validation,
  reachability and BFS depths, DOT rendering and session overlays.
- `state`: the world state and the laws of its effects.
- `content/`, `director/`, `session/`, `autoplay`, `preview`: content
  bundles and their validation, the game director, the session with its
  history and narration context, the autoplay heuristic, the text menu.
- `ipc/`: the decisions of the IPC layer (error classification, circuit
  breaking, retry steps, discovery bookkeeping, transport choice,
  deploy-graph launch waves and port plans, request routing, method
  catalog, HTTP framing, degraded replies).
- `science/voice`: internal voice interjections.
- `experiment`: the check ledger of validation experiments.

`app/` holds the command-line program and everything that touches the
outside world: files, sockets, processes, environment settings, JSON and
YAML shapes, the floating-point game science, and the calls to primals.
It performs the library's decisions and never makes its own.

`tests/` exercises the library from outside.
