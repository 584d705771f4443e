//! The emitted C file.

use crate::ids::DefinitionId;
use vstd::prelude::*;

verus! {

/// A global that no constant C initializer can describe, because it reads another global. Its
/// definition is emitted zero-initialized and `statement` assigns the real value at startup, after
/// the deferred globals in `deps` have theirs.
pub struct GlobalInitializer {
    pub id: DefinitionId,
    pub deps: Vec<DefinitionId>,
    pub statement: String,
}

/// The output file, in sections that keep every declaration ahead of its uses.
pub struct CFile {
    pub includes: String,
    pub type_declarations: String,
    pub type_definitions: String,
    pub function_declarations: String,
    pub global_declarations: String,
    pub global_definitions: String,
    pub function_definitions: String,
    /// Assignments of the globals with non-constant initializers, run before `main`.
    pub global_initializers: Vec<GlobalInitializer>,
}

/// The sections of a file and its deferred assignments.
#[verifier::ext_equal]
pub struct Sections {
    pub includes: Seq<char>,
    pub type_declarations: Seq<char>,
    pub type_definitions: Seq<char>,
    pub function_declarations: Seq<char>,
    pub global_declarations: Seq<char>,
    pub global_definitions: Seq<char>,
    pub function_definitions: Seq<char>,
    pub global_initializers: Seq<GlobalInitializer>,
}

impl View for CFile {
    type V = Sections;

    open spec fn view(&self) -> Sections {
        Sections {
            includes: self.includes@,
            type_declarations: self.type_declarations@,
            type_definitions: self.type_definitions@,
            function_declarations: self.function_declarations@,
            global_declarations: self.global_declarations@,
            global_definitions: self.global_definitions@,
            function_definitions: self.function_definitions@,
            global_initializers: self.global_initializers@,
        }
    }
}

/// `text` as a line of its own.
pub open spec fn line(text: Seq<char>) -> Seq<char> {
    text.push('\n')
}

impl Sections {
    pub open spec fn empty() -> Sections {
        Sections {
            includes: Seq::empty(),
            type_declarations: Seq::empty(),
            type_definitions: Seq::empty(),
            function_declarations: Seq::empty(),
            global_declarations: Seq::empty(),
            global_definitions: Seq::empty(),
            function_definitions: Seq::empty(),
            global_initializers: Seq::empty(),
        }
    }

    /// The text of the whole file: the sections in order, a newline between any two.
    pub open spec fn contents(self) -> Seq<char> {
        line(self.includes) + line(self.type_declarations) + line(self.type_definitions) + line(
            self.function_declarations,
        ) + line(self.global_declarations) + line(self.global_definitions)
            + self.function_definitions
    }

    /// Each section followed by the same section of `other`.
    pub open spec fn followed_by(self, other: Sections) -> Sections {
        Sections {
            includes: self.includes + other.includes,
            type_declarations: self.type_declarations + other.type_declarations,
            type_definitions: self.type_definitions + other.type_definitions,
            function_declarations: self.function_declarations + other.function_declarations,
            global_declarations: self.global_declarations + other.global_declarations,
            global_definitions: self.global_definitions + other.global_definitions,
            function_definitions: self.function_definitions + other.function_definitions,
            global_initializers: self.global_initializers + other.global_initializers,
        }
    }
}

impl Sections {
    /// It does not matter which of three files are joined first.
    pub proof fn law_joining_is_associative(self, second: Sections, third: Sections)
        ensures
            self.followed_by(second).followed_by(third) == self.followed_by(
                second.followed_by(third),
            ),
    {
        assert(self.followed_by(second).followed_by(third) =~= self.followed_by(
            second.followed_by(third),
        ));
    }

    /// Joining with a file that holds nothing changes nothing.
    pub proof fn law_the_empty_file_is_neutral(self)
        ensures
            self.followed_by(Sections::empty()) == self,
            Sections::empty().followed_by(self) == self,
    {
        assert(self.followed_by(Sections::empty()) =~= self);
        assert(Sections::empty().followed_by(self) =~= self);
    }

    /// In the text of a file whatever is used comes before its use: the includes first, the
    /// declarations and definitions of types, the declarations of functions, the globals, and the
    /// definitions of functions last. Gives where each section starts.
    pub proof fn law_declarations_come_before_definitions(self) -> (starts: Seq<int>)
        ensures
            starts.len() == 7,
            ({
                let text = self.contents();
                let stands = |section: Seq<char>, index: int|
                    starts[index] + section.len() <= text.len() && text.subrange(
                        starts[index],
                        starts[index] + section.len(),
                    ) == section && (index < 6 ==> starts[index] + section.len() < starts[index
                        + 1]);
                &&& starts[0] == 0
                &&& stands(self.includes, 0)
                &&& stands(self.type_declarations, 1)
                &&& stands(self.type_definitions, 2)
                &&& stands(self.function_declarations, 3)
                &&& stands(self.global_declarations, 4)
                &&& stands(self.global_definitions, 5)
                &&& stands(self.function_definitions, 6)
                &&& starts[6] + self.function_definitions.len() == text.len()
            }),
    {
        let text = self.contents();
        let first = self.includes.len() + 1;
        let second = first + self.type_declarations.len() + 1;
        let third = second + self.type_definitions.len() + 1;
        let fourth = third + self.function_declarations.len() + 1;
        let fifth = fourth + self.global_declarations.len() + 1;
        let sixth = fifth + self.global_definitions.len() + 1;
        assert(text.subrange(0, self.includes.len() as int) =~= self.includes);
        assert(text.subrange(first as int, (first + self.type_declarations.len()) as int)
            =~= self.type_declarations);
        assert(text.subrange(second as int, (second + self.type_definitions.len()) as int)
            =~= self.type_definitions);
        assert(text.subrange(third as int, (third + self.function_declarations.len()) as int)
            =~= self.function_declarations);
        assert(text.subrange(fourth as int, (fourth + self.global_declarations.len()) as int)
            =~= self.global_declarations);
        assert(text.subrange(fifth as int, (fifth + self.global_definitions.len()) as int)
            =~= self.global_definitions);
        assert(text.subrange(sixth as int, (sixth + self.function_definitions.len()) as int)
            =~= self.function_definitions);
        seq![
            0int,
            first as int,
            second as int,
            third as int,
            fourth as int,
            fifth as int,
            sixth as int,
        ]
    }

    /// What a file holds stands before what the file that is joined to it holds, in each section.
    pub proof fn law_a_joined_file_comes_behind(self, other: Sections)
        ensures
            ({
                let joined = self.followed_by(other);
                let behind = |whole: Seq<char>, front: Seq<char>, back: Seq<char>|
                    whole.len() == front.len() + back.len() && front.is_prefix_of(whole)
                        && back.is_suffix_of(whole);
                &&& behind(joined.includes, self.includes, other.includes)
                &&& behind(
                    joined.type_declarations,
                    self.type_declarations,
                    other.type_declarations,
                )
                &&& behind(joined.type_definitions, self.type_definitions, other.type_definitions)
                &&& behind(
                    joined.function_declarations,
                    self.function_declarations,
                    other.function_declarations,
                )
                &&& behind(
                    joined.global_declarations,
                    self.global_declarations,
                    other.global_declarations,
                )
                &&& behind(
                    joined.global_definitions,
                    self.global_definitions,
                    other.global_definitions,
                )
                &&& behind(
                    joined.function_definitions,
                    self.function_definitions,
                    other.function_definitions,
                )
                &&& self.global_initializers.is_prefix_of(joined.global_initializers)
                &&& other.global_initializers.is_suffix_of(joined.global_initializers)
            }),
    {
    }

    /// The text of a file is as long as its sections and the six newlines between them.
    pub proof fn law_nothing_but_newlines_is_added(self)
        ensures
            self.contents().len() == self.includes.len() + self.type_declarations.len()
                + self.type_definitions.len() + self.function_declarations.len()
                + self.global_declarations.len() + self.global_definitions.len()
                + self.function_definitions.len() + 6,
    {
    }
}

/// Floating-point types and compiler intrinsics, by compiler.
pub const PLATFORM: &'static str = "#if defined(__FLT32_MANT_DIG__) && defined(__FLT64_MANT_DIG__)\ntypedef _Float32 ante_f32;\ntypedef _Float64 ante_f64;\n#else\ntypedef float ante_f32;\ntypedef double ante_f64;\n#endif\n\n#if defined(__GNUC__) || defined(__clang__)\n#define ANTE_UNREACHABLE() __builtin_unreachable()\n#define ANTE_INF() __builtin_inf()\n#define ANTE_NAN() __builtin_nan(\"\")\n#elif defined(_MSC_VER)\n#include <math.h>\n#define ANTE_UNREACHABLE() __assume(0)\n#define ANTE_INF() INFINITY\n#define ANTE_NAN() NAN\n#else\n#include <math.h>\n#define ANTE_UNREACHABLE() ((void)0)\n#define ANTE_INF() INFINITY\n#define ANTE_NAN() NAN\n#endif\n";

/// What a retain of a dying shared value ends in.
pub const RESURRECTED: &'static str = "static void ante_rc_resurrected(void) {\n    static const char ante_rc_msg[] = \"ante: a shared value was resurrected: its refcount reached zero and its Drop impl copied the handle back out. The block is freed when the impl returns, so the copy would dangle.\\n\";\n    fflush(0);\n    write(2, ante_rc_msg, sizeof(ante_rc_msg) - 1);\n    abort();\n}\n";

/// The headers and macros every program needs.
pub open spec fn starter_includes() -> Seq<char> {
    "#include <stdint.h>\n"@ + "#include <stddef.h>\n"@ + "#include <stdbool.h>\n"@ + PLATFORM@
}

/// The types every program needs.
pub open spec fn starter_types() -> Seq<char> {
    "typedef struct { char _unused; } Unit;\n"@
        + "typedef struct { _Alignas(max_align_t) size_t count; } AnteRcHeader;\n"@
        + "#define ANTE_RC_HEADER_SIZE (sizeof(AnteRcHeader))\n"@
        + "#define ANTE_RC_DYING ((size_t)-1)\n"@
}

/// The functions every program needs.
pub open spec fn starter_functions() -> Seq<char> {
    "void* malloc(size_t);\n"@ + "Unit free(void*);\n"@ + "void* memcpy(void*, void*, size_t);\n"@
        + "void* memset(void*, int, size_t);\n"@ + "double fmod(double, double);\n"@
        + "long write(int, const void*, unsigned long);\n"@ + "int fflush(void*);\n"@
        + "void abort(void);\n"@ + RESURRECTED@
}

/// The file that holds nothing but the starter items.
pub open spec fn starter() -> Sections {
    Sections {
        includes: starter_includes(),
        type_declarations: starter_types(),
        function_declarations: starter_functions(),
        ..Sections::empty()
    }
}

impl CFile {
    pub fn new() -> (file: CFile)
        ensures
            file@ == Sections::empty(),
    {
        CFile {
            includes: String::new(),
            type_declarations: String::new(),
            type_definitions: String::new(),
            function_declarations: String::new(),
            global_declarations: String::new(),
            global_definitions: String::new(),
            function_definitions: String::new(),
            global_initializers: Vec::new(),
        }
    }

    /// Consume the file, concatenating everything into a single contents string.
    pub fn into_contents(self) -> (contents: String)
        ensures
            contents@ == self@.contents(),
    {
        proof {
            reveal_strlit("\n");
        }
        let mut result = self.includes;
        result.append("\n");
        result.append(self.type_declarations.as_str());
        result.append("\n");
        result.append(self.type_definitions.as_str());
        result.append("\n");
        result.append(self.function_declarations.as_str());
        result.append("\n");
        result.append(self.global_declarations.as_str());
        result.append("\n");
        result.append(self.global_definitions.as_str());
        result.append("\n");
        result.append(self.function_definitions.as_str());
        assert("\n"@ =~= seq!['\n']);
        assert(result@ =~= self@.contents());
        result
    }

    /// Append `decl` and a newline to the type declarations.
    pub fn add_type_declaration(&mut self, decl: &str)
        ensures
            final(self)@ == (Sections {
                type_declarations: old(self)@.type_declarations + line(decl@),
                ..old(self)@
            }),
    {
        proof {
            reveal_strlit("\n");
        }
        self.type_declarations.append(decl);
        self.type_declarations.append("\n");
        assert(self.type_declarations@ =~= old(self)@.type_declarations + line(decl@));
    }

    /// Append `def` and a newline to the type definitions.
    pub fn add_type_definition(&mut self, def: &str)
        ensures
            final(self)@ == (Sections {
                type_definitions: old(self)@.type_definitions + line(def@),
                ..old(self)@
            }),
    {
        proof {
            reveal_strlit("\n");
        }
        self.type_definitions.append(def);
        self.type_definitions.append("\n");
        assert(self.type_definitions@ =~= old(self)@.type_definitions + line(def@));
    }

    /// Append `decl` and a newline to the function declarations.
    pub fn add_function_declaration(&mut self, decl: &str)
        ensures
            final(self)@ == (Sections {
                function_declarations: old(self)@.function_declarations + line(decl@),
                ..old(self)@
            }),
    {
        proof {
            reveal_strlit("\n");
        }
        self.function_declarations.append(decl);
        self.function_declarations.append("\n");
        assert(self.function_declarations@ =~= old(self)@.function_declarations + line(decl@));
    }

    /// Append `decl` and a newline to the global declarations.
    pub fn add_global_declaration(&mut self, decl: &str)
        ensures
            final(self)@ == (Sections {
                global_declarations: old(self)@.global_declarations + line(decl@),
                ..old(self)@
            }),
    {
        proof {
            reveal_strlit("\n");
        }
        self.global_declarations.append(decl);
        self.global_declarations.append("\n");
        assert(self.global_declarations@ =~= old(self)@.global_declarations + line(decl@));
    }

    /// Append `def` and a newline to the global definitions.
    pub fn add_global_definition(&mut self, def: &str)
        ensures
            final(self)@ == (Sections {
                global_definitions: old(self)@.global_definitions + line(def@),
                ..old(self)@
            }),
    {
        proof {
            reveal_strlit("\n");
        }
        self.global_definitions.append(def);
        self.global_definitions.append("\n");
        assert(self.global_definitions@ =~= old(self)@.global_definitions + line(def@));
    }

    /// Append `def` and a newline to the function definitions.
    pub fn add_function_definition(&mut self, def: &str)
        ensures
            final(self)@ == (Sections {
                function_definitions: old(self)@.function_definitions + line(def@),
                ..old(self)@
            }),
    {
        proof {
            reveal_strlit("\n");
        }
        self.function_definitions.append(def);
        self.function_definitions.append("\n");
        assert(self.function_definitions@ =~= old(self)@.function_definitions + line(def@));
    }

    pub fn add_global_initializer(&mut self, init: GlobalInitializer)
        ensures
            final(self)@ == (Sections {
                global_initializers: old(self)@.global_initializers.push(init),
                ..old(self)@
            }),
    {
        self.global_initializers.push(init);
    }

    /// Take the collected non-constant global initializers, leaving the list empty. They become a
    /// startup function rather than part of the contents.
    pub fn take_global_initializers(&mut self) -> (initializers: Vec<GlobalInitializer>)
        ensures
            initializers@ == old(self)@.global_initializers,
            final(self)@ == (Sections { global_initializers: Seq::empty(), ..old(self)@ }),
    {
        let mut taken: Vec<GlobalInitializer> = Vec::new();
        taken.append(&mut self.global_initializers);
        assert(taken@ =~= old(self)@.global_initializers);
        taken
    }

    /// This file with the contents of `other` behind its own, section by section.
    pub fn extend(self, other: CFile) -> (file: CFile)
        ensures
            file@ == self@.followed_by(other@),
    {
        let mut file = self;
        let mut other = other;
        file.includes.append(other.includes.as_str());
        file.type_declarations.append(other.type_declarations.as_str());
        file.type_definitions.append(other.type_definitions.as_str());
        file.function_declarations.append(other.function_declarations.as_str());
        file.global_declarations.append(other.global_declarations.as_str());
        file.global_definitions.append(other.global_definitions.as_str());
        file.function_definitions.append(other.function_definitions.as_str());
        file.global_initializers.append(&mut other.global_initializers);
        file
    }

    /// This file with the headers, runtime types and prototypes behind its own that every program
    /// needs.
    ///
    /// `stdlib.h`, `string.h`, `math.h` and `stdio.h` stay out: a program may declare their
    /// functions itself. A shared allocation carries its count in an `AnteRcHeader` right before
    /// the value, and a count of `ANTE_RC_DYING` marks a block between its last release and its
    /// free, so that a retain during teardown is caught.
    pub fn add_starter_items(self) -> (file: CFile)
        ensures
            file@ == self@.followed_by(starter()),
    {
        let mut file = self;
        file.includes.append("#include <stdint.h>\n");
        file.includes.append("#include <stddef.h>\n");
        file.includes.append("#include <stdbool.h>\n");
        file.includes.append(PLATFORM);
        assert(file.includes@ =~= self@.includes + starter_includes());

        file.type_declarations.append("typedef struct { char _unused; } Unit;\n");
        file.type_declarations.append(
            "typedef struct { _Alignas(max_align_t) size_t count; } AnteRcHeader;\n",
        );
        file.type_declarations.append("#define ANTE_RC_HEADER_SIZE (sizeof(AnteRcHeader))\n");
        file.type_declarations.append("#define ANTE_RC_DYING ((size_t)-1)\n");
        assert(file.type_declarations@ =~= self@.type_declarations + starter_types());

        file.function_declarations.append("void* malloc(size_t);\n");
        file.function_declarations.append("Unit free(void*);\n");
        file.function_declarations.append("void* memcpy(void*, void*, size_t);\n");
        file.function_declarations.append("void* memset(void*, int, size_t);\n");
        file.function_declarations.append("double fmod(double, double);\n");
        file.function_declarations.append("long write(int, const void*, unsigned long);\n");
        file.function_declarations.append("int fflush(void*);\n");
        file.function_declarations.append("void abort(void);\n");
        file.function_declarations.append(RESURRECTED);
        assert(file.function_declarations@ =~= self@.function_declarations + starter_functions());
        file
    }
}

impl Default for CFile {
    fn default() -> (file: CFile)
        ensures
            file@ == Sections::empty(),
    {
        CFile::new()
    }
}

} // verus!
