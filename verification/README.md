# reprise

Reprise reopens chess games and walks their pivotal moments again: it imports a
player's games from chess.com's published archives, analyses them with Stockfish,
and shows each game move by move with what went wrong and what was better.

`src/` is the library, verified with Verus: the game records and their pivotal
moments, PGN reading and replay (the chess rules come from `rschess`), the engine's
UCI output and the grading of each move, the games list and its paging, the
playback and review pages, the sync bookkeeping, the progress figures, and the
weekly review pack. `app/` is a command-line front end around it: files, network,
the Stockfish process, the clock.
