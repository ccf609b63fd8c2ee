//! The host-provided builtin functions, referenced by name from the
//! evaluator and by index from the virtual machine's `GetBuiltin`.

use vstd::prelude::*;
use std::io::Write;

use crate::object::{
    Object, ObjV, ArrayObj, obj_view, objs_view, kind_text, clone_obj, RunError, ErrV,
};
use crate::strutil::utf8_len;

verus! {

/// The builtin table, in fixed order: `len`, `first`, `last`,
/// `rest`, `push`, `puts`.
#[derive(Debug, Clone, Copy, PartialEq, Eq, Structural)]
pub enum Builtin {
    Len,
    First,
    Last,
    Rest,
    Push,
    Puts,
}

/// The fixed index of a builtin in the table.
pub open spec fn builtin_index(b: Builtin) -> int {
    match b {
        Builtin::Len => 0,
        Builtin::First => 1,
        Builtin::Last => 2,
        Builtin::Rest => 3,
        Builtin::Push => 4,
        Builtin::Puts => 5,
    }
}

/// The builtin a name resolves to, when there is one.
pub open spec fn builtin_of_name(name: Seq<char>) -> Option<Builtin> {
    if name == "len"@ {
        Some(Builtin::Len)
    } else if name == "first"@ {
        Some(Builtin::First)
    } else if name == "last"@ {
        Some(Builtin::Last)
    } else if name == "rest"@ {
        Some(Builtin::Rest)
    } else if name == "push"@ {
        Some(Builtin::Push)
    } else if name == "puts"@ {
        Some(Builtin::Puts)
    } else {
        None
    }
}

/// The builtin at a table index, when the index is in range.
pub open spec fn builtin_of_index(i: int) -> Option<Builtin> {
    if i == 0 {
        Some(Builtin::Len)
    } else if i == 1 {
        Some(Builtin::First)
    } else if i == 2 {
        Some(Builtin::Last)
    } else if i == 3 {
        Some(Builtin::Rest)
    } else if i == 4 {
        Some(Builtin::Push)
    } else if i == 5 {
        Some(Builtin::Puts)
    } else {
        None
    }
}

/// The printed name of a builtin.
pub open spec fn builtin_name(b: Builtin) -> Seq<char> {
    match b {
        Builtin::Len => "len"@,
        Builtin::First => "first"@,
        Builtin::Last => "last"@,
        Builtin::Rest => "rest"@,
        Builtin::Push => "push"@,
        Builtin::Puts => "puts"@,
    }
}

/// What a builtin call returns, for every argument list: the value
/// on success, the error otherwise. `len` of a string counts the
/// bytes of its UTF-8 form. `puts` is the one builtin with a side
/// effect (it prints); its result is always `Null`.
pub open spec fn builtin_call_spec(b: Builtin, args: Seq<ObjV>) -> Result<ObjV, ErrV> {
    match b {
        Builtin::Len => if args.len() != 1 {
            Err(ErrV::WrongNumberOfArgs { expected: 1, got: args.len() as int })
        } else {
            match args[0] {
                ObjV::Str(s) => Ok(
                    ObjV::Int(
                        if utf8_len(s) <= i64::MAX {
                            utf8_len(s) as i64
                        } else {
                            i64::MAX
                        },
                    ),
                ),
                ObjV::Arr(a) => Ok(
                    ObjV::Int(
                        if a.len() <= i64::MAX {
                            a.len() as i64
                        } else {
                            i64::MAX
                        },
                    ),
                ),
                _ => Err(ErrV::BuiltinArg { name: "len"@, kind: kind_text(args[0]) }),
            }
        },
        Builtin::First => if args.len() != 1 {
            Err(ErrV::WrongNumberOfArgs { expected: 1, got: args.len() as int })
        } else {
            match args[0] {
                ObjV::Arr(a) => if a.len() > 0 {
                    Ok(a[0])
                } else {
                    Ok(ObjV::Null)
                },
                _ => Err(ErrV::BuiltinArg { name: "first"@, kind: kind_text(args[0]) }),
            }
        },
        Builtin::Last => if args.len() != 1 {
            Err(ErrV::WrongNumberOfArgs { expected: 1, got: args.len() as int })
        } else {
            match args[0] {
                ObjV::Arr(a) => if a.len() > 0 {
                    Ok(a.last())
                } else {
                    Ok(ObjV::Null)
                },
                _ => Err(ErrV::BuiltinArg { name: "last"@, kind: kind_text(args[0]) }),
            }
        },
        Builtin::Rest => if args.len() != 1 {
            Err(ErrV::WrongNumberOfArgs { expected: 1, got: args.len() as int })
        } else {
            match args[0] {
                ObjV::Arr(a) => if a.len() > 0 {
                    Ok(ObjV::Arr(a.drop_first()))
                } else {
                    Ok(ObjV::Arr(Seq::empty()))
                },
                _ => Err(ErrV::BuiltinArg { name: "rest"@, kind: kind_text(args[0]) }),
            }
        },
        Builtin::Push => if args.len() != 2 {
            Err(ErrV::WrongNumberOfArgs { expected: 2, got: args.len() as int })
        } else {
            match args[0] {
                ObjV::Arr(a) => Ok(ObjV::Arr(a.push(args[1]))),
                _ => Err(ErrV::BuiltinArg { name: "push"@, kind: kind_text(args[0]) }),
            }
        },
        Builtin::Puts => Ok(ObjV::Null),
    }
}

impl Builtin {
    /// The builtin a name resolves to, when there is one.
    pub fn from_ident(ident: &String) -> (r: Option<Builtin>)
        ensures
            r == builtin_of_name(ident@),
    {
        if crate::lexer::is_name(ident, "len") {
            Some(Builtin::Len)
        } else if crate::lexer::is_name(ident, "first") {
            Some(Builtin::First)
        } else if crate::lexer::is_name(ident, "last") {
            Some(Builtin::Last)
        } else if crate::lexer::is_name(ident, "rest") {
            Some(Builtin::Rest)
        } else if crate::lexer::is_name(ident, "push") {
            Some(Builtin::Push)
        } else if crate::lexer::is_name(ident, "puts") {
            Some(Builtin::Puts)
        } else {
            None
        }
    }

    /// The builtin value a name resolves to, when there is one.
    pub fn from_ident_obj(ident: &String) -> (r: Option<Object>)
        ensures
            match builtin_of_name(ident@) {
                Some(b) => r matches Some(o) && o@ == ObjV::Builtin(b),
                None => r is None,
            },
    {
        match Self::from_ident(ident) {
            Some(b) => Some(Object::Builtin(b)),
            None => None,
        }
    }

    /// The builtin at a table index, when the index is in range.
    pub fn from_u8(value: u8) -> (r: Option<Builtin>)
        ensures
            r == builtin_of_index(value as int),
            r matches Some(b) ==> builtin_index(b) == value,
    {
        if value == 0 {
            Some(Builtin::Len)
        } else if value == 1 {
            Some(Builtin::First)
        } else if value == 2 {
            Some(Builtin::Last)
        } else if value == 3 {
            Some(Builtin::Rest)
        } else if value == 4 {
            Some(Builtin::Push)
        } else if value == 5 {
            Some(Builtin::Puts)
        } else {
            None
        }
    }

    /// The fixed index of this builtin in the table.
    pub fn index(&self) -> (r: u8)
        ensures
            r == builtin_index(*self),
    {
        match self {
            Builtin::Len => 0,
            Builtin::First => 1,
            Builtin::Last => 2,
            Builtin::Rest => 3,
            Builtin::Push => 4,
            Builtin::Puts => 5,
        }
    }

    /// Run this builtin on an argument list. `puts` prints each
    /// argument textually on a line of its own.
    #[verifier::loop_isolation(false)]
    pub fn call(&self, args: &Vec<Object>) -> (r: Result<Object, RunError>)
        ensures
            match builtin_call_spec(*self, objs_view(args@)) {
                Ok(v) => r matches Ok(o) && o@ == v,
                Err(e) => r matches Err(o) && o@ == e,
            },
    {
        proof {
            crate::object::lemma_objs_view_len(args@);
        }
        match self {
            Builtin::Len => {
                if args.len() != 1 {
                    return Err(RunError::wrong_number_of_args(1, args.len()));
                }
                match &args[0] {
                    Object::String(s) => {
                        let n = str_byte_len(s);
                        if (n as u64) <= 9223372036854775807u64 {
                            Ok(Object::Integer(n as i64))
                        } else {
                            Ok(Object::Integer(i64::MAX))
                        }
                    }
                    Object::Array(a) => {
                        proof {
                            crate::object::lemma_objs_view_len(a.elements@);
                        }
                        let n = a.elements.len();
                        if (n as u64) <= 9223372036854775807u64 {
                            Ok(Object::Integer(n as i64))
                        } else {
                            Ok(Object::Integer(i64::MAX))
                        }
                    }
                    _ => Err(RunError::builtin_arg("len", args[0].kind())),
                }
            }
            Builtin::First => {
                if args.len() != 1 {
                    return Err(RunError::wrong_number_of_args(1, args.len()));
                }
                match &args[0] {
                    Object::Array(a) => {
                        proof {
                            crate::object::lemma_objs_view_len(a.elements@);
                        }
                        if a.elements.len() > 0 {
                            Ok(clone_obj(&a.elements[0]))
                        } else {
                            Ok(Object::Null)
                        }
                    }
                    _ => Err(RunError::builtin_arg("first", args[0].kind())),
                }
            }
            Builtin::Last => {
                if args.len() != 1 {
                    return Err(RunError::wrong_number_of_args(1, args.len()));
                }
                match &args[0] {
                    Object::Array(a) => {
                        proof {
                            crate::object::lemma_objs_view_len(a.elements@);
                        }
                        if a.elements.len() > 0 {
                            Ok(clone_obj(&a.elements[a.elements.len() - 1]))
                        } else {
                            Ok(Object::Null)
                        }
                    }
                    _ => Err(RunError::builtin_arg("last", args[0].kind())),
                }
            }
            Builtin::Rest => {
                if args.len() != 1 {
                    return Err(RunError::wrong_number_of_args(1, args.len()));
                }
                match &args[0] {
                    Object::Array(a) => {
                        proof {
                            crate::object::lemma_objs_view_len(a.elements@);
                        }
                        let mut elements: Vec<Object> = Vec::new();
                        let mut i: usize = 1;
                        if a.elements.len() == 0 {
                            proof {
                                assert(objs_view(elements@) =~= Seq::<ObjV>::empty());
                            }
                            return Ok(Object::Array(ArrayObj { elements }));
                        }
                        while i < a.elements.len()
                            invariant
                                1 <= i <= a.elements@.len(),
                                elements@.len() == i - 1,
                                forall|j: int| 0 <= j < i - 1 ==> obj_view(
                                    #[trigger] elements@[j],
                                ) == obj_view(a.elements@[j + 1]),
                            decreases a.elements@.len() - i,
                        {
                            elements.push(clone_obj(&a.elements[i]));
                            i = i + 1;
                        }
                        proof {
                            crate::object::lemma_objs_view_len(elements@);
                            assert forall|j: int| 0 <= j < elements@.len() implies objs_view(
                                elements@,
                            )[j] == objs_view(a.elements@).drop_first()[j] by {
                                assert(obj_view(elements@[j]) == obj_view(a.elements@[j + 1]));
                            }
                            assert(objs_view(elements@) =~= objs_view(a.elements@).drop_first());
                        }
                        Ok(Object::Array(ArrayObj { elements }))
                    }
                    _ => Err(RunError::builtin_arg("rest", args[0].kind())),
                }
            }
            Builtin::Push => {
                if args.len() != 2 {
                    return Err(RunError::wrong_number_of_args(2, args.len()));
                }
                match &args[0] {
                    Object::Array(a) => {
                        proof {
                            crate::object::lemma_objs_view_len(a.elements@);
                        }
                        let mut elements = crate::object::clone_objs(&a.elements);
                        let ghost pre = elements@;
                        let x = clone_obj(&args[1]);
                        elements.push(x);
                        proof {
                            crate::object::lemma_objs_view_push(pre, x);
                        }
                        Ok(Object::Array(ArrayObj { elements }))
                    }
                    _ => Err(RunError::builtin_arg("push", args[0].kind())),
                }
            }
            Builtin::Puts => {
                let mut i: usize = 0;
                while i < args.len()
                    decreases args@.len() - i,
                {
                    let line = args[i].to_text();
                    print_line(&line);
                    i = i + 1;
                }
                Ok(Object::Null)
            }
        }
    }
}

/// Relies on str::len: the length of the text in bytes — the length
/// of its UTF-8 encoding.
#[verifier::external_body]
fn str_byte_len(s: &String) -> (n: usize)
    ensures
        n == utf8_len(s@),
{
    s.len()
}

/// Relies on std::io::Stdout and the writeln macro: prints one line
/// to standard output.
#[verifier::external_body]
fn print_line(s: &String) {
    let _ = writeln!(std::io::stdout(), "{}", s);
}

} // verus!
