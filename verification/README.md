# rusternetes-services

Service networking for a small cluster, in two parts:

* the service proxy of a node, which keeps the NAT table in line with services and their
  endpoints, and
* the controller that keeps cloud load balancers in line with services of that type.

`src/` is the library. It decides and computes: which commands to run, what the rules say, how
replies are taken, which node ports are given out, what is asked of a cloud provider. It does no
I/O. Contracts say what each function does, and Verus proves them. Three functions of the standard
library are taken at their word; they stand at the top of `src/text.rs`. What holds across
functions is stated as proof functions whose names begin with `law_`.

An operation on the host is a `Session`: it names the next action, and whoever runs it reports
the outcome. In the same way a `Reconciliation`, a `Sweep` and a `Work` name the next call to the
store or the provider and take the answer.

`app/` runs these on a real host and against a real store. `tests/` holds the tests.
