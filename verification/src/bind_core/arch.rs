//! Architecture and source-language metadata. The only place that knows
//! register names.
use vstd::prelude::*;
use crate::bind_core::model::RegisterRole;
use crate::text::{
    chars_of, is_word, lower_all, lower_seq, starts, starts_with_lit, trim, trim_chars, trim_end, trim_start, lemma_starts_at,
};

verus! {

#[derive(Debug, Clone, Copy, PartialEq, Eq, Structural, Default)]
pub enum Architecture {
    X86_64,
    Aarch64,
    #[default]
    Unknown,
}

#[derive(Debug, Clone, Copy, PartialEq, Eq, Structural, Default)]
pub enum Endianness {
    #[default]
    Little,
    Big,
}

/// A token, trimmed and ASCII-lower-cased.
pub open spec fn norm(t: Seq<char>) -> Seq<char> {
    lower_seq(trim(t))
}

/// The architecture a target-triple token names.
pub open spec fn arch_of_token(t: Seq<char>) -> Architecture {
    let n = norm(t);
    if starts(n, "x86_64"@) || n == "amd64"@ {
        Architecture::X86_64
    } else if starts(n, "aarch64"@) || starts(n, "arm64"@) {
        Architecture::Aarch64
    } else {
        Architecture::Unknown
    }
}

/// The role a register of this name plays on x86-64 (`n` already normalized).
pub open spec fn x86_role(n: Seq<char>) -> RegisterRole {
    if n == "rip"@ {
        RegisterRole::ProgramCounter
    } else if n == "rsp"@ {
        RegisterRole::StackPointer
    } else if n == "rbp"@ {
        RegisterRole::FramePointer
    } else if n == "rflags"@ || n == "eflags"@ || n == "flags"@ {
        RegisterRole::Flags
    } else if starts(n, "r"@) || starts(n, "e"@) {
        RegisterRole::General
    } else if starts(n, "xmm"@) || starts(n, "ymm"@) || starts(n, "zmm"@) {
        RegisterRole::Vector
    } else {
        RegisterRole::Other
    }
}

/// The role a register of this name plays on aarch64 (`n` already normalized).
pub open spec fn arm_role(n: Seq<char>) -> RegisterRole {
    if n == "pc"@ {
        RegisterRole::ProgramCounter
    } else if n == "sp"@ {
        RegisterRole::StackPointer
    } else if n == "fp"@ || n == "x29"@ {
        RegisterRole::FramePointer
    } else if n == "cpsr"@ || n == "pstate"@ {
        RegisterRole::Flags
    } else if n == "lr"@ || n == "x30"@ {
        RegisterRole::General
    } else if starts(n, "x"@) || starts(n, "w"@) {
        RegisterRole::General
    } else if starts(n, "v"@) || starts(n, "q"@) || starts(n, "d"@) {
        RegisterRole::Vector
    } else {
        RegisterRole::Other
    }
}

pub open spec fn role_of(arch: Architecture, name: Seq<char>) -> RegisterRole {
    match arch {
        Architecture::X86_64 => x86_role(norm(name)),
        Architecture::Aarch64 => arm_role(norm(name)),
        Architecture::Unknown => RegisterRole::Other,
    }
}

fn normalized(token: &str) -> (n: Vec<char>)
    ensures
        n@ == norm(token@),
{
    let c = chars_of(token);
    let t = trim_chars(c.as_slice());
    lower_all(t.as_slice())
}

impl Architecture {
    /// Best-effort parse of an LLDB / target-triple architecture token.
    pub fn from_triple_arch(token: &str) -> (a: Architecture)
        ensures
            a == arch_of_token(token@),
    {
        let n = normalized(token);
        if starts_with_lit(n.as_slice(), "x86_64") || is_word(n.as_slice(), "amd64") {
            Architecture::X86_64
        } else if starts_with_lit(n.as_slice(), "aarch64") || starts_with_lit(n.as_slice(), "arm64") {
            Architecture::Aarch64
        } else {
            Architecture::Unknown
        }
    }

    pub fn pointer_width_bits(self) -> (b: u8)
        ensures
            b == 64,
    {
        match self {
            Architecture::X86_64 | Architecture::Aarch64 => 64,
            Architecture::Unknown => 64,
        }
    }

    pub fn display_name(self) -> (s: &'static str)
        ensures
            s@ == match self {
                Architecture::X86_64 => "x86-64"@,
                Architecture::Aarch64 => "aarch64"@,
                Architecture::Unknown => "unknown"@,
            },
    {
        match self {
            Architecture::X86_64 => "x86-64",
            Architecture::Aarch64 => "aarch64",
            Architecture::Unknown => "unknown",
        }
    }

    /// Canonical program-counter register name, if known.
    pub fn program_counter_name(self) -> (s: Option<&'static str>)
        ensures
            match self {
                Architecture::X86_64 => s is Some && s->0@ == "rip"@,
                Architecture::Aarch64 => s is Some && s->0@ == "pc"@,
                Architecture::Unknown => s is None,
            },
    {
        match self {
            Architecture::X86_64 => Some("rip"),
            Architecture::Aarch64 => Some("pc"),
            Architecture::Unknown => None,
        }
    }

    /// Canonical stack-pointer register name, if known.
    pub fn stack_pointer_name(self) -> (s: Option<&'static str>)
        ensures
            match self {
                Architecture::X86_64 => s is Some && s->0@ == "rsp"@,
                Architecture::Aarch64 => s is Some && s->0@ == "sp"@,
                Architecture::Unknown => s is None,
            },
    {
        match self {
            Architecture::X86_64 => Some("rsp"),
            Architecture::Aarch64 => Some("sp"),
            Architecture::Unknown => None,
        }
    }

    /// Classifies a register purely from its name for this architecture.
    pub fn classify_register(self, name: &str) -> (r: RegisterRole)
        ensures
            r == role_of(self, name@),
    {
        let n = normalized(name);
        let s = n.as_slice();
        match self {
            Architecture::X86_64 => {
                if is_word(s, "rip") {
                    RegisterRole::ProgramCounter
                } else if is_word(s, "rsp") {
                    RegisterRole::StackPointer
                } else if is_word(s, "rbp") {
                    RegisterRole::FramePointer
                } else if is_word(s, "rflags") || is_word(s, "eflags") || is_word(s, "flags") {
                    RegisterRole::Flags
                } else if starts_with_lit(s, "r") || starts_with_lit(s, "e") {
                    RegisterRole::General
                } else if starts_with_lit(s, "xmm") || starts_with_lit(s, "ymm") || starts_with_lit(s, "zmm") {
                    RegisterRole::Vector
                } else {
                    RegisterRole::Other
                }
            },
            Architecture::Aarch64 => {
                if is_word(s, "pc") {
                    RegisterRole::ProgramCounter
                } else if is_word(s, "sp") {
                    RegisterRole::StackPointer
                } else if is_word(s, "fp") || is_word(s, "x29") {
                    RegisterRole::FramePointer
                } else if is_word(s, "cpsr") || is_word(s, "pstate") {
                    RegisterRole::Flags
                } else if is_word(s, "lr") || is_word(s, "x30") {
                    RegisterRole::General
                } else if starts_with_lit(s, "x") || starts_with_lit(s, "w") {
                    RegisterRole::General
                } else if starts_with_lit(s, "v") || starts_with_lit(s, "q") || starts_with_lit(s, "d") {
                    RegisterRole::Vector
                } else {
                    RegisterRole::Other
                }
            },
            Architecture::Unknown => RegisterRole::Other,
        }
    }
}

/// Source language as reported by debug info.
#[derive(Debug, Clone, Copy, PartialEq, Eq, Structural, Default)]
pub enum Language {
    C,
    Cpp,
    Rust,
    Swift,
    ObjectiveC,
    Zig,
    Assembly,
    Other,
    #[default]
    Unknown,
}

pub open spec fn language_of(token: Seq<char>) -> Language {
    let n = norm(token);
    if n == "c"@ || n == "c89"@ || n == "c99"@ || n == "c11"@ {
        Language::C
    } else if n == "c++"@ || n == "cpp"@ || n == "c++11"@ || n == "c++14"@ || n == "c++17"@ || n
        == "c++20"@ {
        Language::Cpp
    } else if n == "rust"@ {
        Language::Rust
    } else if n == "swift"@ {
        Language::Swift
    } else if n == "objective-c"@ || n == "objc"@ {
        Language::ObjectiveC
    } else if n == "zig"@ {
        Language::Zig
    } else if n == "asm"@ || n == "assembly"@ {
        Language::Assembly
    } else if n == ""@ || n == "unknown"@ {
        Language::Unknown
    } else {
        Language::Other
    }
}

impl Language {
    /// Parses an LLDB language string (`"c++"`, `"rust"`, ...).
    pub fn from_lldb(token: &str) -> (l: Language)
        ensures
            l == language_of(token@),
    {
        let n = normalized(token);
        let s = n.as_slice();
        if is_word(s, "c") || is_word(s, "c89") || is_word(s, "c99") || is_word(s, "c11") {
            Language::C
        } else if is_word(s, "c++") || is_word(s, "cpp") || is_word(s, "c++11") || is_word(s, "c++14")
            || is_word(s, "c++17") || is_word(s, "c++20") {
            Language::Cpp
        } else if is_word(s, "rust") {
            Language::Rust
        } else if is_word(s, "swift") {
            Language::Swift
        } else if is_word(s, "objective-c") || is_word(s, "objc") {
            Language::ObjectiveC
        } else if is_word(s, "zig") {
            Language::Zig
        } else if is_word(s, "asm") || is_word(s, "assembly") {
            Language::Assembly
        } else if is_word(s, "") || is_word(s, "unknown") {
            Language::Unknown
        } else {
            Language::Other
        }
    }

    pub fn display_name(self) -> (s: &'static str)
        ensures
            s@ == language_name(self),
            s@ == match self {
                Language::C => "C"@,
                Language::Cpp => "C++"@,
                Language::Rust => "Rust"@,
                Language::Swift => "Swift"@,
                Language::ObjectiveC => "Objective-C"@,
                Language::Zig => "Zig"@,
                Language::Assembly => "assembly"@,
                Language::Other => "other"@,
                Language::Unknown => "unknown"@,
            },
    {
        match self {
            Language::C => "C",
            Language::Cpp => "C++",
            Language::Rust => "Rust",
            Language::Swift => "Swift",
            Language::ObjectiveC => "Objective-C",
            Language::Zig => "Zig",
            Language::Assembly => "assembly",
            Language::Other => "other",
            Language::Unknown => "unknown",
        }
    }
}

/// The name a language is displayed by.
pub open spec fn language_name(l: Language) -> Seq<char> {
    match l {
        Language::C => "C"@,
        Language::Cpp => "C++"@,
        Language::Rust => "Rust"@,
        Language::Swift => "Swift"@,
        Language::ObjectiveC => "Objective-C"@,
        Language::Zig => "Zig"@,
        Language::Assembly => "assembly"@,
        Language::Other => "other"@,
        Language::Unknown => "unknown"@,
    }
}

/// A language's display name, read back as an LLDB language string, gives
/// the same language.
pub proof fn lemma_language_name_round_trip(l: Language)
    ensures
        language_of(language_name(l)) == l,
{
    let s = language_name(l);
    reveal_strlit("C");
    reveal_strlit("C++");
    reveal_strlit("Rust");
    reveal_strlit("Swift");
    reveal_strlit("Objective-C");
    reveal_strlit("Zig");
    reveal_strlit("assembly");
    reveal_strlit("other");
    reveal_strlit("unknown");
    reveal_strlit("c");
    reveal_strlit("c89");
    reveal_strlit("c99");
    reveal_strlit("c11");
    reveal_strlit("c++");
    reveal_strlit("cpp");
    reveal_strlit("c++11");
    reveal_strlit("c++14");
    reveal_strlit("c++17");
    reveal_strlit("c++20");
    reveal_strlit("rust");
    reveal_strlit("swift");
    reveal_strlit("objective-c");
    reveal_strlit("objc");
    reveal_strlit("zig");
    reveal_strlit("asm");
    reveal_strlit("");
    assert(trim_start(s) == s);
    assert(trim_end(s) == s);
    let n = lower_seq(s);
    assert(trim(s) == s);
    assert(norm(s) == n);
    match l {
        Language::C => {
            assert(n =~= "c"@);
        },
        Language::Cpp => {
            assert(n =~= "c++"@);
            assert(n[1] != "c89"@[1] && n[1] != "c99"@[1] && n[1] != "c11"@[1]);
        },
        Language::Rust => {
            assert(n =~= "rust"@);
        },
        Language::Swift => {
            assert(n =~= "swift"@);
            assert(n[0] != "c++11"@[0] && n[0] != "c++14"@[0] && n[0] != "c++17"@[0] && n[0] != "c++20"@[0]);
        },
        Language::ObjectiveC => {
            assert(n =~= "objective-c"@);
        },
        Language::Zig => {
            assert(n =~= "zig"@);
            assert(n[0] != "c89"@[0] && n[0] != "c99"@[0] && n[0] != "c11"@[0] && n[0] != "c++"@[0] && n[0] != "cpp"@[0]);
        },
        Language::Assembly => {
            assert(n =~= "assembly"@);
        },
        Language::Other => {
            assert(n =~= "other"@);
        },
        Language::Unknown => {
            assert(n =~= "unknown"@);
        },
    }
}


/// On x86-64, whatever the case of the name and the spaces around it: `rip`
/// is the program counter, `rsp` the stack pointer, `rbp` the frame pointer,
/// `rflags`/`eflags`/`flags` the flags; any other name starting with `r` or
/// `e` is a general register, one starting with `xmm`, `ymm` or `zmm` a
/// vector register, and anything else other.
pub proof fn lemma_x86_register_roles(name: Seq<char>)
    ensures
        ({
            let n = norm(name);
            let role = role_of(Architecture::X86_64, name);
            &&& n == "rip"@ ==> role == RegisterRole::ProgramCounter
            &&& n == "rsp"@ ==> role == RegisterRole::StackPointer
            &&& n == "rbp"@ ==> role == RegisterRole::FramePointer
            &&& (n == "rflags"@ || n == "eflags"@ || n == "flags"@) ==> role == RegisterRole::Flags
            &&& (starts(n, "r"@) || starts(n, "e"@)) && n != "rip"@ && n != "rsp"@ && n != "rbp"@ && n != "rflags"@
                && n != "eflags"@ ==> role == RegisterRole::General
            &&& (starts(n, "xmm"@) || starts(n, "ymm"@) || starts(n, "zmm"@)) ==> role == RegisterRole::Vector
            &&& !(starts(n, "r"@) || starts(n, "e"@) || starts(n, "xmm"@) || starts(n, "ymm"@) || starts(n, "zmm"@)
                || n == "flags"@) ==> role == RegisterRole::Other
        }),
        role_of(Architecture::Unknown, name) == RegisterRole::Other,
{
    reveal_strlit("rip");
    reveal_strlit("rsp");
    reveal_strlit("rbp");
    reveal_strlit("rflags");
    reveal_strlit("eflags");
    reveal_strlit("flags");
    reveal_strlit("r");
    reveal_strlit("e");
    reveal_strlit("xmm");
    reveal_strlit("ymm");
    reveal_strlit("zmm");
    assert("rip"@.len() == 3 && "rip"@[0] == 'r');
    assert("rsp"@.len() == 3 && "rsp"@[0] == 'r');
    assert("rbp"@.len() == 3 && "rbp"@[0] == 'r');
    assert("rflags"@.len() == 6 && "rflags"@[0] == 'r');
    assert("eflags"@.len() == 6 && "eflags"@[0] == 'e');
    assert("flags"@.len() == 5 && "flags"@[0] == 'f');
    assert("r"@.len() == 1 && "r"@[0] == 'r');
    assert("e"@.len() == 1 && "e"@[0] == 'e');
    assert("xmm"@.len() == 3 && "xmm"@[0] == 'x');
    assert("ymm"@.len() == 3 && "ymm"@[0] == 'y');
    assert("zmm"@.len() == 3 && "zmm"@[0] == 'z');
    let n = norm(name);
    if n == "rip"@ || n == "rsp"@ || n == "rbp"@ {
        assert(n[1] == "rip"@[1] || n[1] == "rsp"@[1] || n[1] == "rbp"@[1]);
        assert("rip"@[1] == 'i' && "rsp"@[1] == 's' && "rbp"@[1] == 'b');
    }
    if starts(n, "xmm"@) {
        lemma_starts_at(n, "xmm"@, 0);
    }
    if starts(n, "ymm"@) {
        lemma_starts_at(n, "ymm"@, 0);
    }
    if starts(n, "zmm"@) {
        lemma_starts_at(n, "zmm"@, 0);
    }
    if starts(n, "r"@) {
        lemma_starts_at(n, "r"@, 0);
    }
    if n.len() > 0 && n[0] == 'r' {
        assert(n.take(1) =~= "r"@);
    }
    if n.len() > 0 && n[0] == 'e' {
        assert(n.take(1) =~= "e"@);
    }
    if starts(n, "e"@) {
        lemma_starts_at(n, "e"@, 0);
    }
}

/// On AArch64, whatever the case of the name and the spaces around it: `pc`
/// is the program counter, `sp` the stack pointer, `fp` and `x29` the frame
/// pointer, `cpsr`/`pstate` the flags, `lr`, `x30` and any other name
/// starting with `x` or `w` a general register, one starting with `v`, `q`
/// or `d` a vector register, and anything else other.
pub proof fn lemma_arm_register_roles(name: Seq<char>)
    ensures
        ({
            let n = norm(name);
            let role = role_of(Architecture::Aarch64, name);
            &&& n == "pc"@ ==> role == RegisterRole::ProgramCounter
            &&& n == "sp"@ ==> role == RegisterRole::StackPointer
            &&& (n == "fp"@ || n == "x29"@) ==> role == RegisterRole::FramePointer
            &&& (n == "cpsr"@ || n == "pstate"@) ==> role == RegisterRole::Flags
            &&& (n == "lr"@ || ((starts(n, "x"@) || starts(n, "w"@)) && n != "x29"@)) ==> role == RegisterRole::General
            &&& (starts(n, "v"@) || starts(n, "q"@) || starts(n, "d"@)) ==> role == RegisterRole::Vector
            &&& !(n == "pc"@ || n == "sp"@ || n == "fp"@ || n == "cpsr"@ || n == "pstate"@ || n == "lr"@
                || starts(n, "x"@) || starts(n, "w"@) || starts(n, "v"@) || starts(n, "q"@) || starts(n, "d"@))
                ==> role == RegisterRole::Other
        }),
{
    reveal_strlit("pc");
    reveal_strlit("sp");
    reveal_strlit("fp");
    reveal_strlit("x29");
    reveal_strlit("cpsr");
    reveal_strlit("pstate");
    reveal_strlit("lr");
    reveal_strlit("x30");
    reveal_strlit("x");
    reveal_strlit("w");
    reveal_strlit("v");
    reveal_strlit("q");
    reveal_strlit("d");
    assert("pc"@.len() == 2 && "pc"@[0] == 'p');
    assert("sp"@.len() == 2 && "sp"@[0] == 's');
    assert("fp"@.len() == 2 && "fp"@[0] == 'f');
    assert("x29"@.len() == 3 && "x29"@[0] == 'x');
    assert("cpsr"@.len() == 4 && "cpsr"@[0] == 'c');
    assert("pstate"@.len() == 6 && "pstate"@[0] == 'p');
    assert("lr"@.len() == 2 && "lr"@[0] == 'l');
    assert("x30"@.len() == 3 && "x30"@[0] == 'x');
    assert("x"@.len() == 1 && "x"@[0] == 'x');
    assert("w"@.len() == 1 && "w"@[0] == 'w');
    assert("v"@.len() == 1 && "v"@[0] == 'v');
    assert("q"@.len() == 1 && "q"@[0] == 'q');
    assert("d"@.len() == 1 && "d"@[0] == 'd');
    let n = norm(name);
    if n == "x29"@ || n == "x30"@ {
        assert(n[1] == "x29"@[1] || n[1] == "x30"@[1]);
        assert("x29"@[1] == '2' && "x30"@[1] == '3');
    }
    if starts(n, "x"@) {
        lemma_starts_at(n, "x"@, 0);
    }
    if n.len() > 0 && n[0] == 'x' {
        assert(n.take(1) =~= "x"@);
    }
    if starts(n, "w"@) {
        lemma_starts_at(n, "w"@, 0);
    }
    if starts(n, "v"@) {
        lemma_starts_at(n, "v"@, 0);
    }
    if starts(n, "q"@) {
        lemma_starts_at(n, "q"@, 0);
    }
    if starts(n, "d"@) {
        lemma_starts_at(n, "d"@, 0);
    }
}

} // verus!
