# carbonite

Schema-separated columnar serialization, verified with Verus.

A schema describes how values of a type are laid out. It is a value of its own:
it is shipped once and reused for any number of blobs, which hold nothing but
data. A blob stores the values of each leaf of the schema together, in a column,
and a batch of rows shares its columns. A reader whose type has changed since is
reconciled with the writer's schema by name.

## Layout

- `src/` is the library. Everything in it is proved, down to what is said of the
  few functions of `std` that it calls.
- `app/` presents typed values to the library and builds them from it through
  serde's traits, traces types through their `Deserialize` impls, and spells out
  the impls that `#[derive(Schema)]` decides on.
- `tests/` runs the library.

## What the library is made of

| Modules | What they hold |
| --- | --- |
| `schema`, `shape`, `wire` | schemas, the trees that they stand for, their binary form |
| `layout`, `node` | which columns each position of a schema has |
| `value`, `builder` | a value in the terms in which it presents itself |
| `put`, `ser`, `batch`, `blob` | what writing appends to the columns, and blobs of rows |
| `get`, `de`, `rows`, `skip` | what reading gives back |
| `roundtrip`, `trips` | that these agree |
| `spot`, `plan`, `reader` | readers whose type is not the writer's |
| `shared` | objects that are written once per row |
| `static_schema`, `typed_*`, `entries`, `ordered`, `product`, `float`, `time`, `nonzero`, `glam_types` | types whose schema is known from the type alone, and their fast paths |
| `self_describing` | a blob framed together with its schema |
| `trace`, `tracer`, `request` | discovering the schema of a type from how it reads |
| `compat`, `probe`, `sampled` | whether a changed type still reads what was released |
| `fallback` | fields whose types only ship serde impls |
| `derive` | what the derive macro decides |
