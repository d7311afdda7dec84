# metralectl-agent

The agent that runs on every machine of a fleet. It finds and pairs with other
agents, starts and stops models, drives a launch across several machines, and
runs benchmark jobs for peers that were granted it.

`src/` holds what the agent decides: who is answered, who is trusted, which
link and which route is taken, how a cluster launch and a benchmark job move
from one state to the next, what is kept and what is thrown away. It computes
on plain values. Times, addresses, file contents, process states and random
draws come in as arguments; what is to be done about them goes out as a value.
Every function states what it returns, and Verus proves it; what holds of
several functions together is stated and proved in the functions named `law_…`.

| module | what it decides |
| --- | --- |
| `guard` | which web page may drive this agent |
| `pairing`, `joining` | codes and invitations, and how often they can be tried |
| `identity`, `name`, `node` | pins and grants, names that are safe to show, identities |
| `discovery`, `fleet` | what is made of beacons, reports and claims; listing and routing |
| `fabric`, `net`, `rendezvous` | which links there are, and where machines meet |
| `cluster`, `clusterdriver` | ranks, and the ceremonies that start and stop them |
| `launcher`, `launchstats`, `control` | launches on this machine |
| `bench` | benchmark jobs: submission, life, journal, artifacts, retention |
| `keyed`, `order`, `text`, `json`, `digest` | what the rest is written with |
| `daemon` | what a peer's frame is answered with |

`app/` is the program around it: files, processes, sockets, clocks, multicast
DNS, and the loops that carry out what the library asks for.
