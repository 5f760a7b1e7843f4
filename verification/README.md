# gasleak

Surfaces stale AWS EC2 instances: who launched them, how long they have been
running, whether they carry the tagging contract, what they cost, and whether
recent CPU load suggests that they do real work.

## Layout

- `src/` is a library that is verified with Verus. It holds the rules, the
  arithmetic, the ordering and everything that is written to the user. Functions
  state in their contracts what they return; public proof functions state what
  holds of the library as a whole.
- `app/` is the program around it: arguments, AWS calls, files, the Slack
  webhook, printing.
- `tests/` runs the library on concrete values.

## What the program prints

| Command | What it shows | Exit code |
|---|---|---|
| `gasleak list` | running instances, the most expensive first | 0 |
| `gasleak stale` | instances with verdicts, the most urgent first | 0, 1 or 2 by the worst severity |
| `gasleak explain <id>` | what every rule makes of one instance | 0 |

With `--json` the same comes as JSON; with `--slack` it is also posted to Slack.
With `--slack-only` nothing is printed, and a post that fails gives exit code 3.

## Verdicts

| Verdict | When | Severity |
|---|---|---|
| `managed` | a controller (EKS, Auto Scaling, Spot fleet) owns the instance; no other rule is asked | Info |
| `expired` | `ExpiresAt` is past | High |
| `expiring_soon` | `ExpiresAt` is within the warning window | Medium |
| `idle` | enough CPU samples, p95 below the threshold, no deadline ahead | Low |
| `non_compliant` | a contract tag is missing | Low; High where tags were stripped or the migration deadline is past |

## Numbers

Amounts and percentages are binary64 numbers, held by their bits. `double`,
`rounding` and `decimal` compute and write them with integers alone; their
contracts say which number is nearest and how a tie is resolved.
