# sysmon

A system monitor whose logic is verified with Verus.

`src/` is the library. It parses what the kernel and a few command line tools say
about the machine and decides what to report: CPU load, model names and clock
speeds (`cpu`), memory, swap, zswap and zram (`memory`), mounted volumes and their
space (`disk`), batteries and adapters (`battery`), hardware sensors (`sensors`),
and graphics cards of AMD, Intel and NVIDIA with their marketing names (`gpu`). The
modules `text`, `number`, `binary64`, `json` and `table` hold what these share.

Every function states in its contract what it returns, over mathematical
descriptions of its input. Functions named `law_...` prove what holds of the
library as a whole. Floating-point numbers are held by their bits (`Binary64`) and
compared and rounded on them; where a quotient is wanted, its two parts are given.

`app/` reads the files, runs the tools, does the floating-point arithmetic and
publishes states on watch channels.
