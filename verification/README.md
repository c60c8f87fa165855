# hltb_bot

A Telegram bot (also runnable as an AWS Lambda function or on the command
line) that looks games up on HowLongToBeat and answers with their play times
and links to their HLTB and Steam pages.

Layout:

- `src/` is the verified library: the message format (`formatting`), the
  mapping of search results to entries (`mapping`), the authentication headers
  of the HLTB client (`auth`), the search request body (`request`), the
  reading of game pages and search queries and the retry of a search whose
  token went stale (`hltb`), the two-step answer to a query (`retrieval`), the
  routing of Lambda invocations and the choice of runtime (`lambda`), the
  polling offset (`telegram`), the queries read on the command line (`cli`),
  and the text helpers they share (`text`).
- `app/` is the program around it: HTTP requests, Telegram and Lambda
  plumbing, JSON reading, logging, and the conversion of seconds into hours,
  which is done in floating point.
- `tests/` runs the library on concrete values.
