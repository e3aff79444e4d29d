//! Binding of job arguments to the parameters a script declares.
use vstd::prelude::*;
use crate::json::{json_compact, json_string_literal, opt_text, read_compact, read_string_literal};

verus! {

/// One entry of a job's argument mapping: a parameter name and the JSON text
/// of the value given for it.
pub struct JobArg {
    pub name: String,
    pub raw: String,
}

/// The text passed to a script for an argument, from the two readings of its
/// JSON text: the content of a string value as it is, any other value in
/// compact JSON, and nothing where the text is not JSON.
pub open spec fn arg_text_of(literal: Option<Seq<char>>, compact: Option<Seq<char>>) -> Seq<char> {
    match literal {
        Some(s) => s,
        None => match compact {
            Some(t) => t,
            None => Seq::empty(),
        },
    }
}

/// The text passed to a script for an argument whose JSON text is `raw`.
pub open spec fn raw_text(raw: Seq<char>) -> Seq<char> {
    arg_text_of(json_string_literal(raw), json_compact(raw))
}

/// The JSON text of the first entry named `name`, if there is one.
pub open spec fn lookup(args: Seq<JobArg>, name: Seq<char>) -> Option<Seq<char>>
    decreases args.len(),
{
    if args.len() == 0 {
        None
    } else if args[0].name@ == name {
        Some(args[0].raw@)
    } else {
        lookup(args.drop_first(), name)
    }
}

/// The text bound to the parameter `name`: empty where the job gives none.
pub open spec fn bound_text(args: Seq<JobArg>, name: Seq<char>) -> Seq<char> {
    match lookup(args, name) {
        Some(raw) => raw_text(raw),
        None => Seq::empty(),
    }
}

/// The flag that introduces the parameter `name`.
pub open spec fn flag_of(name: Seq<char>) -> Seq<char> {
    seq!['-', '-'] + name
}

/// Chooses the text for an argument from the two readings of its JSON text.
pub fn arg_text(literal: Option<String>, compact: Option<String>) -> (r: String)
    ensures
        r@ == arg_text_of(opt_text(literal), opt_text(compact)),
{
    match literal {
        Some(s) => s,
        None => match compact {
            Some(t) => t,
            None => String::new(),
        },
    }
}

/// Turns the JSON text of an argument into the text passed to the script.
pub fn raw_to_string(x: &str) -> (r: String)
    ensures
        r@ == raw_text(x@),
{
    let literal = read_string_literal(x);
    if literal.is_some() {
        arg_text(literal, None)
    } else {
        let compact = read_compact(x);
        arg_text(None, compact)
    }
}

/// Finds the JSON text given for a parameter.
pub fn find_arg<'a>(args: &'a Vec<JobArg>, name: &String) -> (r: Option<&'a String>)
    ensures
        match r {
            Some(raw) => lookup(args@, name@) == Some(raw@),
            None => lookup(args@, name@) is None,
        },
{
    let mut i: usize = 0;
    assert(args@.skip(0) =~= args@);
    while i < args.len()
        invariant
            i <= args.len(),
            lookup(args@, name@) == lookup(args@.skip(i as int), name@),
        decreases args.len() - i,
    {
        assert(args@.skip(i as int).drop_first() =~= args@.skip(i + 1));
        if args[i].name == *name {
            return Some(&args[i].raw);
        }
        i = i + 1;
    }
    None
}

/// The text bound to one parameter.
pub fn bind_one(args: &Vec<JobArg>, name: &String) -> (r: String)
    ensures
        r@ == bound_text(args@, name@),
{
    match find_arg(args, name) {
        Some(raw) => raw_to_string(raw.as_str()),
        None => String::new(),
    }
}

/// The values of the declared parameters, in declaration order.
pub fn positional_args(params: &Vec<String>, args: &Vec<JobArg>) -> (r: Vec<String>)
    ensures
        r.len() == params.len(),
        forall|i: int| 0 <= i < params.len() ==> r[i]@ == bound_text(args@, #[trigger] params[i]@),
{
    let mut r: Vec<String> = Vec::new();
    let mut i: usize = 0;
    while i < params.len()
        invariant
            i <= params.len(),
            r.len() == i,
            forall|j: int| 0 <= j < i ==> r[j]@ == bound_text(args@, #[trigger] params[j]@),
        decreases params.len() - i,
    {
        r.push(bind_one(args, &params[i]));
        i = i + 1;
    }
    r
}

/// For each declared parameter, in declaration order, its flag followed by
/// its value.
pub fn flag_args(params: &Vec<String>, args: &Vec<JobArg>) -> (r: Vec<String>)
    ensures
        r.len() == 2 * params.len(),
        forall|i: int| 0 <= i < params.len() ==> r[2 * i]@ == flag_of(#[trigger] params[i]@),
        forall|i: int| 0 <= i < params.len() ==> r[2 * i + 1]@ == bound_text(args@, #[trigger] params[i]@),
{
    let mut r: Vec<String> = Vec::new();
    let mut i: usize = 0;
    while i < params.len()
        invariant
            i <= params.len(),
            r.len() == 2 * i,
            forall|j: int| 0 <= j < i ==> r[2 * j]@ == flag_of(#[trigger] params[j]@),
            forall|j: int| 0 <= j < i ==> r[2 * j + 1]@ == bound_text(args@, #[trigger] params[j]@),
        decreases params.len() - i,
    {
        let mut flag = String::from_str("--");
        proof {
            reveal_strlit("--");
            assert("--"@ =~= seq!['-', '-']);
        }
        flag.append(params[i].as_str());
        r.push(flag);
        r.push(bind_one(args, &params[i]));
        i = i + 1;
    }
    r
}

/// No value is found for a parameter exactly when no entry carries its
/// name, and the parameter is then bound to the empty text.
pub proof fn lemma_lookup_absent(args: Seq<JobArg>, name: Seq<char>)
    ensures
        lookup(args, name) is None <==> forall|i: int| 0 <= i < args.len() ==> (#[trigger] args[i]).name@ != name,
        lookup(args, name) is None ==> bound_text(args, name) == Seq::<char>::empty(),
    decreases args.len(),
{
    if args.len() > 0 {
        let rest = args.drop_first();
        lemma_lookup_absent(rest, name);
        if args[0].name@ != name {
            if lookup(rest, name) is None {
                assert forall|i: int| 0 <= i < args.len() implies (#[trigger] args[i]).name@ != name by {
                    if i > 0 {
                        assert(args[i] == rest[i - 1]);
                    }
                }
            } else {
                let k = choose|k: int| 0 <= k < rest.len() && (#[trigger] rest[k]).name@ == name;
                assert(args[k + 1] == rest[k]);
            }
        }
    }
}

} // verus!
