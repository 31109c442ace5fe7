# pong_evo

Neuroevolution of Pong paddle controllers: a population of small 8-16-4-1
networks plays round-robin tournaments, and the fittest breed the next
generation.

- `src/` is the verified library (Verus): fitness bookkeeping and ranking,
  breeding plans, genetic operators, game-end and scoring rules, the reader of
  champion logs written by the C++ trainer, training settings and the
  keyboard navigation of the terminal interface. Laws of the library (for
  example that packed scores order lexicographically, that a ranking is
  unique, that every plan keeps the population size and breeds only from the
  survivors, or that every game of a round awards exactly one win) are public
  proof functions beside the code they speak of.
- `tests/` exercises the library on concrete values.
- `app/` is the program around it: command-line parsing, file I/O, the
  floating-point network and ball physics, the training loop and the
  terminal interface.
