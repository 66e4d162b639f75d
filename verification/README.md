# sv2_roles_logic

Verified mining logic for the Stratum V2 roles.

| Module | Contents |
| --- | --- |
| `job_creator` | templates in, jobs out; which job belongs to which template |
| `coinbase`, `coinbase_laws` | the coinbase of a job, cut around the place of the extranonce |
| `stripped_coinbase` | the same coinbase without witness data |
| `merkle`, `header` | Merkle roots and the hash that a share stands for |
| `target`, `uint256` | the target that makes a miner find shares at the wanted pace |
| `downstream` | the difficulty of a connected miner, and when it changes |
| `channels` | the jobs that shares may be submitted for, and the channels that submit them |
| `ids`, `mutex`, `messages`, `errors` | what the others are made of |
| `transaction`, `wire_format`, `bytes` | the transaction wire format and its laws |

Hashing, reading and writing of transactions and 256-bit arithmetic come from the `bitcoin` crate,
and the lengths of message fields from `binary_sv2`. What is believed of them stands in the
contracts of the functions marked `external_body`.

`app/` holds what is around the library: the messages on the wire, hash rates in floating point,
the clock, shared state and logs.
