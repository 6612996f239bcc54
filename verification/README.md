# crontab_rs

`crond` and `crontab`, compatible with cronie, as a library whose logic is
proved with Verus.

- `src/` is the library. Every function states in its contract what it returns
  or changes, and the public `law_*` proof functions state what holds of the
  library as a whole.
- `app/` is the program around it: arguments, files, processes, threads, the
  log. It runs as `crond` or as `crontab`, by its name.
- `tests/` runs the library.

| Module | What it decides |
| --- | --- |
| `schedule` | the five time fields and the `@` shortcuts: parsing, matching, the next time |
| `notation` | laws on which ways of writing a schedule say the same |
| `crontab` | crontab files: environment lines, jobs, `%` input, limits |
| `raw` | texts that keep the bytes of a file that is not UTF-8 |
| `posix_tz`, `tzif`, `zone`, `zone_cache` | what time it is under a `CRON_TZ` value |
| `calendar`, `clock` | wall-clock times and the local minute |
| `daemon` | which minutes to evaluate, which jobs are due, how many may run |
| `database`, `path_map` | which crontab files are loaded |
| `job`, `mail` | who a job runs as, its environment, what becomes of its output |
| `allow`, `config`, `cli`, `command` | the `crontab` utility |
| `logging`, `startup` | how the daemon logs, mails and starts |

What is taken on trust from other crates stands in functions marked
`external_body`, each with a comment that says what is claimed of which
function: dates and the clock (`chrono`), zone names (`chrono_tz`), random
numbers (`rand`), and three functions of the standard library.
