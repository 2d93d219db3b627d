# doit

`doit` executes commands as root for users whom `/etc/doit.conf` permits, like
`doas`. Its decisions are a library whose contracts are proved with Verus; the
program around it performs them.

## Configuration

```
<user> permit [nopass|extend]
```

| Line | Behaviour |
|---|---|
| `user permit` | Password required every time |
| `user permit nopass` | No password required |
| `user permit extend` | 10 password-free uses, then password required; authenticating recharges |

Lines that start with `#` and blank lines are ignored, and so is a comment behind
`nopass` or `extend`. Malformed lines are reported and skipped, lines that go on
in another way among them. The first entry for a user counts.

The configuration file and the counter file (`/var/lib/doit/counter.json`) must
be owned by `root:root` with mode `600`, the counter directory with mode `700`.
Where they are more permissive, `doit` refuses to run. Files that do not exist
yet are created so.

The command gets an environment of variables that are known to be safe, and the
`PATH` `/usr/local/bin:/usr/bin:/bin`. Every authorization and every refusal is
logged to syslog under `LOG_AUTH`.

## Layout

| Path | What it holds |
|---|---|
| `src/text.rs` | Lines, fields, words and numerals of plain text |
| `src/config.rs` | The configuration file |
| `src/counter.rs` | The counters of password-free uses |
| `src/counter_file.rs` | The update of the counter file, step by step |
| `src/permissions.rs` | The check of ownership and permissions |
| `src/cost.rs` | The cost parameters of yescrypt hashes |
| `src/password.rs` | The verification of a password against `/etc/shadow` |
| `src/environment.rs` | The environment of the command |
| `src/session.rs` | One invocation, step by step |
| `src/guarantees.rs` | What holds of every invocation |
| `app/` | The program: arguments, files, terminal, syslog, `exec` |
| `tests/` | Tests of the library |

Password hashes are computed by the `yescrypt` and `sha-crypt` crates. What they
say of a password is trusted; which of them is asked, and what follows from the
answer, is proved.
