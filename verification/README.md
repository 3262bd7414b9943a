# watt

A rule-driven CPU and power management daemon for Linux, whose decision
logic is a library verified with Verus.

## Layout

- `src/` — the verified library.
  - `expression.rs`: the expression language of the configuration and its
    evaluation against a snapshot of the system. Numbers are generic; the
    daemon evaluates with 64-bit floats through a number model it passes in.
  - `config.rs`: CPU and power settings of a rule, rules, loading checks
    (unique priorities, priority order) and the decision of what the rules
    ask, higher priorities shadowing lower ones.
  - `cpu.rs`: `/proc/stat` times, CPU state and the sysfs writes that settings
    turn into, setting merges, the CPUs to manage.
  - `cpu_info.rs`: the `/proc/cpuinfo` parser.
  - `power_supply.rs`: power supplies, discharging, charge-threshold merges.
  - `system.rs`: `/proc/stat` lines, chassis detection, temperature sensor
    names and labels, bounded logs.
  - `text.rs`: the string helpers the parsers share.
- `tests/` — tests of the library.
- `app/` — the daemon: command line, logging, reading and writing sysfs and
  procfs, the TOML configuration file, floating-point readings and the
  polling loop.
