# Model Radar

A bot that watches a catalog of language models and tells subscribers of models that are new
or have become free.

- `src/` is the verified library: catalogs and prices, subscriptions, the state and how it is
  committed, and what the bot shows. Each function states its behaviour in its contract. The
  modules whose names end in `_laws` prove what holds across functions.
- `src/discord.rs` and the head of `src/strings.rs` state what is relied on of serenity's
  message builders and of the standard library.
- `app/` is the program around it: the chat service, the network, JSON and files.
- `tests/` runs the library on concrete values.
