# contract_abi

Typed calls to smart contracts from Python: Python values are read into the tokens of
a contract's ABI, tokens are given back as Python values, and the steps of a call (headers,
bodies that wait for a signature, initial data, transactions) are decided in between.

The library under `src/` is verified with Verus. It works on plain values:

- `numbers`, `keys`, `ledger`, `order`, `value`, `param`, `token`: the values, each with its
  model;
- `parse` and `convert`: from Python values to tokens and back;
- `headers`, `message`, `function`, `event`, `transaction`, `decode`, `init_data`,
  `contract`: what is handed to the ledger libraries, and what their answers mean;
- `version`, `abi_types`, `text`: versions and parameter types as Python builds them, and the
  text of an ABI;
- `round_trip`, `canonical`, `parsing_laws`, `conversion_laws`: what holds of all of this
  together.

A step that needs a ledger library comes in two parts: one function says what the ledger
library is asked, another takes its answer and says what the call returns.

`app/` holds the Python classes and makes those calls, into `ton_abi`, `ton_block`, `ton_types`
and `nekoton`.
