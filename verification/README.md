# scx_teddy

A sched_ext scheduler that collects task runtime behaviour online, clusters
tasks with a trained model (K-means), and sets priority and time slice per
cluster. `src/` is the decision logic as a library, verified with
[Verus](https://github.com/verus-lang/verus); `app/` is the program around it:
BPF, system calls, files, and floating-point arithmetic.

| module | what it decides |
|---|---|
| `text` | splitting, trimming, decimal numbers |
| `game_task_finder` | which process family is the running game |
| `tracker`, `control` | which game is tracked, and when it has ended |
| `watch`, `fd_set` | what the detection loop waits for and does next |
| `wire` | the records exchanged with the kernel side |
| `task_stats`, `stats_map` | per-task statistics, and the climb along parent chains |
| `classifier`, `sched` | from features to a cluster to scheduling parameters |
| `csv` | the table of features for training |
| `topology` | CPU kinds by maximal frequency |
| `run` | what the main loop does, and when |
| `climb_laws`, `history_laws`, `topology_laws` | what holds of the above as a whole |

Values that only floating point can hold (sums of squares, centroids, sigmas)
are type parameters of the library; the arithmetic on them is passed in.
