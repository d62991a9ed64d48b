# git-remote-igit

Git remote helper for the `igit://` transport of InfiniGit.

```bash
git clone igit://infinigit.com/username/repository
```

Git discovers the executable by its `git-remote-igit` name. The helper resolves
the repository through the InfiniGit directory and uses the `infinigit-pack`
bridge to synchronize packs with the canister. Both are one program: it is the
bridge when it runs under the name `infinigit-pack`.

`infinigit.com` selects the ICP mainnet and the production directory; no
environment variables or git configuration are required for public clones.

## Layout

- `src/` is the library: the addresses and answers, the formats, the keys, and the
  state machines that decide what to do next. Its functions are verified with
  Verus. What it takes on trust from other crates stands in the functions marked
  `external_body` and in the `assume_specification` items, each with a comment on
  what it claims.
- `app/` performs what the state machines ask for: processes, files, the
  terminal and the network.
- `tests/` runs the library on concrete values, with scripted canisters.
