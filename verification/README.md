# atomic_sync

Locks that keep their whole state in one atomic word, written in Verus. Contracts
speak of the exchanges that a function's result comes from, of what it hands back
for each outcome, and of which part of the outcome is up to other threads. That a
function makes no further exchange is not stated.

## The locks

| module | lock |
| --- | --- |
| `mutex::embedded` | one bit of a word that holds something else as well |
| `mutex::ticketing` | tasks are served in the order of the numbers they drew |
| `rwlock::preemptive` | readers, writers and one upgradable reader; tasks spin |
| `rwlock::cooperative` | the same; tasks wait in a queue |

`rwlock::sequential` holds the links by which waiting tasks form a line.

## How it is put together

- `word` has the bit operations on unsigned words of every width, each stated
  on the number that the word stands for; `fields` cuts a number into flags and
  counts.
- `cell` has the cells that hold a word. A cell is exchanged through the `atomex`
  crate. Other threads may change a cell at any time, so nothing is claimed of
  what it holds: an operation hands back a record of what it saw and did, and of
  the atomic that it did it to, and contracts speak of the record.
- Each lock names the changes of its word as steps. A step says where it can
  take place and what it makes of the parts of the word.
- The modules named `laws` state what follows for every order in which tasks take
  their steps, from the records of the exchanges: that a writer holds a lock
  alone, and that numbers are served in order. Of the ticket lock the events are
  left out by which a task comes by a number, or skips one, that another has.
  They come about only after a task has given up its number.
  `rwlock::cooperative::nodes` and `rwlock::cooperative::run` state the laws of
  the queue: a place in it is kept, and nobody is left waiting who could come in.

No function of the library spins for ever. One that would is given a number of
turns, and hands back where it got to when they have run out.

`app/` adds what is outside of the library: the data that a lock protects, guards
that give a lock back when they are dropped, loops without end, and futures.
`tests/` runs the library.
