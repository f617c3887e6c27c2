# mine_schedule

Schedules for open-pit material movement: which loader works on what, where
the material goes, what hauls it, and what it is worth.

The library under `src/` is verified with Verus. Every rule is written over
`scalar::Scalar`, a number with named operations, so that one proof serves exact
billionths (`scalar::Fixed`) and whatever number a program brings.

| module | what it holds |
|---|---|
| `trucking` | truck classes, their calendars, the rules that permit them, and travel coefficients |
| `sequence` | dig orders, references to ground, and the digest of an outline |
| `production` | tonnes by period, read off an executed schedule |
| `optimisation::input`, `intervals`, `authored` | what a schedule is made from |
| `optimisation::parcel` | the model in which stockpiles keep parcels apart, and what is published of a solution |
| `optimisation::audit` | the audit of a published schedule |
| `optimisation::blended` | the model in which stockpiles blend, the search for a schedule, and its replay |
| `ledger`, `listing`, `text`, `scalar`, `cancellation`, `error` | what the others are built on |

Models are written as plain columns and rows. Solving them is left to a program:
`app/` hands them to HiGHS and SCIP in floating point, and also holds the stored
forms, the messages and the hashing.

What the library promises as a whole is stated in public proof functions, most
of them in files called `laws.rs`; `sequence::cycles`, `sequence::winding` and
`sequence::drawing` hold what is promised of outlines, `trucking::spans` of
truck-hours, and `parcel::keeping` and `blended::formulation::working` of what
the models admit.
