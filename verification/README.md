# truc

Rust code generation for records whose variants are known at build time.

A record definition is built variant after variant: data are added to and removed from the
current variant, and closing it lays its data out in memory like the fields of a structure, keeping
the offsets of the data that stay. A datum removed from a variant never comes back.

## Layout

- `src/` is the library, verified with Verus:
  - `record::definition` holds the definitions and their textual representation;
    `record::definition::builder` the builders (generic, native with name checks, and the
    default one) and the variant builders that lay the data out (`simple`, `basic`, and the
    dummy ones that append); `record::definition::convert` replays a definition into another
    builder.
  - `record::type_resolver` and `record::naming` resolve type names, `syn` parsing the type names.
  - `generator` derives, for each variant, the names, data, generic parameters and the lines of
    the generated functions; `generator::plan` gives the maximum size, the records, the sorted
    type-size checks and the data records of the conversions from a previous variant.
  - `runtime` converts vectors of records element by element.
- `app/` writes the generated code with `codegen`, gives the type information that only the
  compiler knows, serializes type resolvers, and holds the storage of generated records.
- `tests/` exercises both.
