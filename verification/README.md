# pallet-ares

An on-chain price oracle, written as verified state machines in Verus.

- `src/ares.rs`: the aggregator oracle. Aggregators register, users file
  requests for a price named by a specification index, the named aggregator
  answers, the answer is stored per specification index, and requests expire
  after a validity period. `src/ares_laws.rs` proves its laws.
- `src/operator.rs`: the operator oracle, whose requests carry a call and a
  fee; an answer is put into that call (`CallbackWithParameter`). It keeps an
  operator registry that no call writes, so `operator(who)` answers false.
- `src/template.rs`: a client module that asks for the ETH price and stores
  the SCALE-encoded `i128` answer (SCALE through `parity-scale-codec`).
- `src/runtime.rs`: the two modules together, answers dispatched from root;
  `src/oracle_laws.rs` proves that an answer reaches the module that asked.
- `src/json.rs`, `src/price.rs`: a JSON grammar over bytes and the reading of
  a price, in hundredths, from a price service's JSON answer.
- `src/origin.rs`: call origins, account and block types, the callback name.
- `src/store.rs`: keyed storage kept as a sequence of entries together with
  the map it stands for, the request lookup and the expiry split that both
  oracles share, and the lemmas on ordered id lists that their laws use.
