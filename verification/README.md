# OntologyX Sim Core

Circuit contracts, a digital event engine, a co-simulation scheduler and the
decisions around outside solvers (ngspice and its XSPICE event models, Verilator,
Renode), written in Verus.

- `src/` is the library: its functions state what they do, and the laws that hold
  across functions are public proof functions.
- `tests/` runs the library on concrete values.
- `app/` is the ordinary Rust around it: solver processes, JSON, the durable job
  store and the HTTP service.

Numbers are doubles, kept as their bits and computed exactly as the machine would
(`number`). A text that is handed to a solver is a `draft`: its numbers are written
out by the caller, and the numbers of what a solver leaves are read by the caller.

| Modules | What they hold |
| --- | --- |
| `circuit`, `model`, `firmware`, `analysis`, `units`, `waveform` | the circuit and the result model |
| `validation` | what a circuit is checked for |
| `number`, `text`, `lines`, `draft`, `reading` | doubles, texts and parameters |
| `engine`, `control`, `fault` | engines, limits and failures |
| `logic`, `events`, `kernel`, `digital`, `digital_engine` | four-state logic and the event engine |
| `cosim`, `scheduler`, `timeline`, `recorder`, `cosim_bridge`, `digital_cosim` | the shared timeline |
| `nodes`, `ngspice`, `spice_models`, `spice_results`, `stimulus`, `xspice`, `mixed`, `vcd` | netlists and their results |
| `hdl`, `verilator`, `verilator_cosim` | test benches and stepped models |
| `renode`, `renode_cosim` | boards and their helper |
| `solvers`, `runs` | how solvers are started and how a run ends |
| `runtime`, `service` | durable jobs, workers and the service |
