# kachiclash

The rules of Kachi Clash, a prediction game for Grand Sumo tournaments (basho),
as a Verus library: the functions in `src/` carry contracts that Verus proves,
except the small trusted wrappers around outside crates named below, whose
contracts Verus takes as given.

- `rank`, `order`, `basho_id`, `dates`: banzuke ranks and their text forms,
  basho ids and the calendar they follow.
- `basho`, `banzuke_table`, `sumo_api`, `sumodb`: the rikishi of a basho, their
  daily results, the bouts reported by sumo-api and SumoDB, and the checks on picks.
- `leaders`, `lex`, `pages`, `poll`, `push`, `heya`, `player`, `auth`, `award`,
  `config`, `web_url`, `basho_info`, `api_query`: standings, page and query
  decisions, polling times, push notifications, heya rules, player names and logins.
- `enter_picks`: the rules of the tool that enters a player's picks by hand.

Calls into outside crates (chrono, regex, url, slug_intl, hmac-sha256, itertools)
stand behind small trusted wrappers whose contracts are stated in their doc
comments.

`app/` is the `enter-picks` command-line tool around the library: arguments,
terminal and the SQLite database.
