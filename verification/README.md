# rtk (AWS output compression)

Runs the AWS command line and prints a short view of what it prints.

- `src/` — the verified library (Verus):
  - `json.rs`: the JSON model the filters read, and the parser behind it
    (`serde_json`, a trusted call).
  - `text.rs`: decimal numbers, line splitting and joining, overflow notes.
  - `aws.rs`: the filters for `sts`, `s3 ls`, `ec2`, `ecs`, `rds` and
    `cloudformation` output.
  - `route.rs`: which handler an invocation goes to, and the arguments each
    handler passes to `aws`.
  - `runner.rs`: run options and the decisions a filtered run makes.
- `app/` — the program around it: runs `aws`, prints, exits.
- `tests/` — tests of the library.
