# b-rs

A trading console for the Oslo exchange and crypto, and a lottery tool beside it. The rules of the
console are a library that Verus verifies; the program around it is ordinary Rust.

## Layout

- `src/` is the library. Prices, quantities and percentages are integers that count hundred-millionths;
  a price times a quantity counts their squares. What the contracts say is said over spec functions on
  sequences, maps and mathematical integers.
  - `strategy`, `backtest`, `risk`, `pnl`: signals, a test on history, the limits of an order, and gains
    first in, first out.
  - `engine` and `engine/`: one tick of the console, orders and plans, stops and alarms, reports.
  - `broker/`: the paper account, and what is sent to and read from IBKR and Revolut X.
  - `marketdata`, `market`, `calendar`, `nordnet`, `notify`, `import`: what is read from outside.
  - `morgan` and `morgan/`: what the language models are asked, and what their answers may do.
  - `gui` and `gui/`, `state`, `app`, `config`, `store`: what the screen shows, and what is kept.
  - `tipping` and `tipping/`: the history of draws, statistics, and rows that few others play.
  - `json`, `dato`, `text`, `belop`, `number_text`, `tabell`, `order`: numbers, texts, dates and tables.
- `tests/` runs the library.
- `app/` is the program: files, the network, the database, the terminal and the windows.

What holds of the library as a whole stands in proof functions whose names begin with `law_`. Calls into
other crates stand behind small functions marked `external_body`; the comment above each says what is
taken on trust.

## Bruk

    b-rs [--tui] [--uten-konsoll] [konfigfil]   konsollen
    b-rs nokkel <fil>                           nøkkelpar for Revolut X
    b-rs importer <database> <fil>              handler fra en Nordnet-eksport
    b-rs tipping …                              lotteriet

Strategiene:

- `sma_cross` kjøper når snittkursen siste 5 dager krysser over snittet siste 20, og selger ved kryss under.
- `rsi` kjøper når RSI er under 30 og selger når den er over 70.
- `momentum` kjøper når kursen bryter over det høyeste på 20 dager, og selger ved brudd under det laveste.

Sikkerhetsnettene:

- Stop-loss selger hvis en posisjon faller X % under kjøpskursen, take-profit ved +X %, og trailing stop
  hvis kursen faller X % fra toppen etter kjøpet.
- Tapsgrensen stopper all handel hvis porteføljen har tapt mer enn grensen.
- KILL SWITCH stopper alt og kansellerer åpne ordrer.

Språkmodellene: en lokal modell via Ollama (`provider = "ollama"`), eller en i skyen, med nøkkelen i
miljøvariabelen `ANTHROPIC_API_KEY`. Hvilken modell den er, kan settes i `ANTHROPIC_MODEL`.

Mobilvarsler: installer ntfy, abonner på et hemmelig emnenavn, og skriv samme navn i innstillingene.

Filene: `config.toml` (innstillinger), `b-rs.db` (databasen), `backups/` (daglige kopier, 14 beholdes),
`b-rs.log` (logg), `b-rs-realisert-gevinst.csv` (skatterapporten).

Lotteriets filer ligger i `%APPDATA%\b-tipping`, og i `data/tipping` der systemet ikke har en slik mappe:
trekningene i én fil per spill, kupongene i `kuponger.csv`. Gjenganger-analysen, panelet og
premietabellene er ikke med: en kupong vises med antall treff og den gevinsten som er ført på den.

Dette er et hobbyverktøy, ikke investeringsrådgivning.
