# jira_mcp_server

An MCP server for a Jira Data Center instance, with its logic verified by Verus.

- `src/` is the verified library: rendering of Atlassian Document Format to
  Markdown, the formatting of issues, comments, fields, projects, users and
  worklogs, the decisions of the tools (which fields a request sends, which
  transition a status names, how worklog pages are followed and batched, which
  worklogs an author filter keeps, how timestamps are read), each with a
  contract over a mathematical model, and the laws that tie them together.
- `tests/` runs the library on concrete values.
- `app/` is the program: command line, logging, the MCP transport and the
  Jira REST calls. It hands the library plain values and returns what the
  library computes.

Run it with `--jira-url <URL>` (or `JIRA_URL`) and `--jira-token <TOKEN>`
(or `JIRA_TOKEN`).
