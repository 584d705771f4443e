# ante_passes

Verified passes of a compiler for a language with ownership, effects and reference counting.

| Module | What it does |
| --- | --- |
| `definition_collection::visible_implicits` | files the implicits a file sees by ability and argument |
| `type_inference::moves`, `affine` | tracks moved places, decides which types are `Copy` |
| `type_inference::free_variables` | finds what closures capture |
| `type_inference::origins` | finds where references may point, rejects those that would dangle |
| `type_inference::drop_*` | decides where values die and makes the drops |
| `mir::builder` | lowers checked items to blocks of instructions |
| `mir::elide_borrow_pairs` | takes out retains and releases that no call needs |
| `codegen::cfile` | the sections of the emitted C file |

Every pass is stated over a mathematical model of the state it works on: `State` for the checks,
`Lowering` for the builder, `Program` for lowered code. A pass takes the model to a model, and its
executable function is proved to do exactly that. Functions named `law_..` state what holds of a
pass as a whole.

What other parts of a compiler would be asked for (the types of expressions, layouts, which types
unify) is given as tables.

`tests/` runs the passes on small programs. `app/` keeps the ids of a program in one place for all
items, and stores implicits between two runs.
