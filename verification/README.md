# sb-watcher

Watches the **Ticketbörse** (resale exchange) on a sold-out festival's ticket page and alerts when
tickets appear, over Telegram and, if a topic is set, over ntfy.

The detector does not look for a "tickets available" pattern. It knows one quiet state: the exchange's
card is on the page and holds the sentence `Es gibt aktuell keine Tickets zum Weiterverkauf`. Any
departure from it raises the alarm. Offers that can be read from the page enrich the message and never
decide whether there is one. A page without the card, or without the main product's frame, is reported
as a change of structure, never taken for quiet.

## Layout

`src/` is the library: every decision, as verified code.

| Module | What it holds |
|---|---|
| `text` | whitespace, words, search, numbers in decimal, size in UTF-8 |
| `clock` | spans and instants |
| `config` | the configuration, from a map of environment variables, and how to start |
| `fetch` | what a response amounts to, and the cap on its body |
| `page` | the parsed page, and the parts of it that the detector reads |
| `parse` | what a page shows |
| `state` | alerts, and which of them a change on the page calls for |
| `watcher` | the watcher's state, and what each poll makes of it: reminders, outages, heartbeats |
| `laws` | what holds of a running watcher, over any number of polls |
| `notify` | how an alert is put into a message, and when it counts as delivered |
| `bot` | what the bot answers, and to whom |

`app/` is the program around it: the HTTP client, the Telegram bot, the clock and the loop.
`tests/` runs the library.

## Trust

Verus proves the library's contracts. What it takes on trust is stated at the few functions that call
out: parsing and selecting with `scraper` (`page`), showing an instant with `chrono` (`clock`), and a
handful of standard library functions (`text`, `parse`, `config`, `fetch`).

## Configuration

| Variable | Required | Default | Purpose |
|---|---|---|---|
| `TELOXIDE_TOKEN` | yes | | the bot's token |
| `TELEGRAM_CHAT_ID` | yes, unless discovering | | the chat to alert |
| `SB_WATCHER_DISCOVERY` | no | | `1`: only answer chats with their id, watch nothing |
| `NTFY_TOPIC` | no | | unset: no ntfy channel |
| `POLL_INTERVAL_SECS` | no | `60` | |
| `TARGET_URL` | no | the festival's page | |
| `USER_AGENT` | no | a browser's | |
| `SB_WATCHER_FIXTURE_PATH` | no | | read the page from a file instead of the site |
