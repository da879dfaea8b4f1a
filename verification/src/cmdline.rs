//! The command line a run is logged with: each argument that is set, in
//! the order of its name, written back as a flag.

use vstd::prelude::*;
use vstd::multiset::Multiset;
use crate::sorting::{key_lt, sort_by_key, sorted_by_key, Keyed, SortKey};
use crate::order::lex_less;
use crate::text::{chars_of, concat_all, parse_u64, parse_u64_spec, str_eq, string_from_chars};

verus! {

broadcast use vstd::seq_lib::group_to_multiset_ensures;

/// One element of a list argument: a string, or any other value by its
/// JSON text.
pub enum CliItem {
    Str(String),
    Json(String),
}

/// The value of an argument as its JSON form holds it: null, a boolean, a
/// string, a list, or any other value (a number, an object) by its JSON
/// text.
pub enum CliValue {
    Null,
    Bool(bool),
    Str(String),
    Json(String),
    Array(Vec<CliItem>),
}

/// A named argument.
pub struct CliArg {
    pub name: String,
    pub value: CliValue,
}

impl Keyed for CliArg {
    open spec fn sort_key(&self) -> SortKey {
        (self.name@, None)
    }

    fn sorts_before(&self, other: &Self) -> (r: bool) {
        let a = chars_of(self.name.as_str());
        let b = chars_of(other.name.as_str());
        lex_less(&a, &b)
    }
}

/// The flag name of an argument: its name with `-` for each `_`.
pub open spec fn flag_name(name: Seq<char>) -> Seq<char> {
    name.map_values(|c: char| if c == '_' { '-' } else { c })
}

/// How a list element is written: a string in double
/// quotes, anything else as its JSON text.
pub open spec fn item_text(item: CliItem) -> Seq<char> {
    match item {
        CliItem::Str(s) => "\""@ + s@ + "\""@,
        CliItem::Json(t) => t@,
    }
}

/// `" --flag value"` for each element of a list.
pub open spec fn items_text(flag: Seq<char>, items: Seq<CliItem>) -> Seq<char>
    decreases items.len(),
{
    if items.len() == 0 {
        seq![]
    } else {
        items_text(flag, items.drop_last()) + " --"@ + flag + " "@ + item_text(items.last())
    }
}

/// `s` written `n` times.
pub open spec fn repeat(s: Seq<char>, n: nat) -> Seq<char>
    decreases n,
{
    if n == 0 {
        seq![]
    } else {
        repeat(s, (n - 1) as nat) + s
    }
}

/// How often `verbose` was given: its value when that is a number that
/// fits a `u64`, else none.
pub open spec fn verbose_count(value: CliValue) -> nat {
    match value {
        CliValue::Json(t) => match parse_u64_spec(t@) {
            Some(n) => n as nat,
            None => 0,
        },
        _ => 0,
    }
}

/// How one argument is written back: `verbose` as one ` --verbose` per
/// count; nothing for null, `false`, an empty list or an empty string;
/// ` --flag` for `true`; ` --flag value` for each element of a list and
/// for a single value, strings in double quotes.
pub open spec fn arg_text(a: CliArg) -> Seq<char> {
    let flag = flag_name(a.name@);
    if a.name@ == "verbose"@ {
        repeat(" --verbose"@, verbose_count(a.value))
    } else {
        match a.value {
            CliValue::Null => seq![],
            CliValue::Bool(b) => if b {
                " --"@ + flag
            } else {
                seq![]
            },
            CliValue::Str(s) => if s@.len() == 0 {
                seq![]
            } else {
                " --"@ + flag + " "@ + "\""@ + s@ + "\""@
            },
            CliValue::Json(t) => " --"@ + flag + " "@ + t@,
            CliValue::Array(items) => items_text(flag, items@),
        }
    }
}

/// The command line of the arguments in this order, after the program name.
pub open spec fn command_line_text(exe_name: Seq<char>, args: Seq<CliArg>) -> Seq<char> {
    exe_name + concat_all(args.map_values(|a: CliArg| arg_text(a)))
}

fn push_chars(out: &mut Vec<char>, s: &str)
    ensures
        final(out)@ == old(out)@ + s@,
{
    let mut c = chars_of(s);
    out.append(&mut c);
}

fn push_flag(out: &mut Vec<char>, name: &str)
    ensures
        final(out)@ == old(out)@ + " --"@ + flag_name(name@),
{
    push_chars(out, " --");
    let v = chars_of(name);
    let ghost start = out@;
    let mut i: usize = 0;
    while i < v.len()
        invariant
            i <= v.len(),
            v@ == name@,
            out@ == start + flag_name(v@.take(i as int)),
        decreases v.len() - i,
    {
        let c = if v[i] == '_' { '-' } else { v[i] };
        out.push(c);
        i += 1;
        assert(flag_name(v@.take(i as int)) =~= flag_name(v@.take(i - 1)).push(c));
    }
    assert(v@.take(v.len() as int) =~= v@);
}

fn push_item(out: &mut Vec<char>, item: &CliItem)
    ensures
        final(out)@ == old(out)@ + item_text(*item),
{
    match item {
        CliItem::Str(s) => {
            push_chars(out, "\"");
            push_chars(out, s.as_str());
            push_chars(out, "\"");
        },
        CliItem::Json(t) => {
            push_chars(out, t.as_str());
        },
    }
}

fn push_arg(out: &mut Vec<char>, a: &CliArg)
    ensures
        final(out)@ == old(out)@ + arg_text(*a),
{
    let ghost start = out@;
    if str_eq(a.name.as_str(), "verbose") {
        let count: u64 = match &a.value {
            CliValue::Json(t) => match parse_u64(t.as_str()) {
                Some(n) => n,
                None => 0,
            },
            _ => 0,
        };
        let mut k: u64 = 0;
        while k < count
            invariant
                k <= count,
                out@ == start + repeat(" --verbose"@, k as nat),
            decreases count - k,
        {
            push_chars(out, " --verbose");
            k += 1;
        }
        return;
    }
    let ghost flag = flag_name(a.name@);
    match &a.value {
        CliValue::Null => {
            assert(out@ =~= start + arg_text(*a));
        },
        CliValue::Bool(b) => {
            if *b {
                push_flag(out, a.name.as_str());
            }
            assert(out@ =~= start + arg_text(*a));
        },
        CliValue::Str(s) => {
            if !s.as_str().is_empty() {
                push_flag(out, a.name.as_str());
                push_chars(out, " ");
                push_chars(out, "\"");
                push_chars(out, s.as_str());
                push_chars(out, "\"");
                assert(out@ =~= start + (" --"@ + flag + " "@ + "\""@ + s@ + "\""@));
            } else {
                assert(out@ =~= start + arg_text(*a));
            }
        },
        CliValue::Json(t) => {
            push_flag(out, a.name.as_str());
            push_chars(out, " ");
            push_chars(out, t.as_str());
            assert(out@ =~= start + (" --"@ + flag + " "@ + t@));
        },
        CliValue::Array(items) => {
            let mut i: usize = 0;
            while i < items.len()
                invariant
                    i <= items.len(),
                    out@ == start + items_text(flag, items@.take(i as int)),
                    flag == flag_name(a.name@),
                decreases items.len() - i,
            {
                push_flag(out, a.name.as_str());
                push_chars(out, " ");
                push_item(out, &items[i]);
                assert(items@.take(i + 1).drop_last() =~= items@.take(i as int));
                i += 1;
            }
            assert(items@.take(items.len() as int) =~= items@);
        },
    }
}

/// The arguments sorted by name, each written back as a flag after the
/// program name (`build_command_line`).
pub fn build_command_line(exe_name: &str, args: Vec<CliArg>) -> (r: String)
    ensures
        exists|sorted: Seq<CliArg>|
            sorted.to_multiset() == args@.to_multiset() && sorted_by_key(sorted) && r@
                == command_line_text(exe_name@, sorted),
{
    let sorted = sort_by_key(args);
    let ghost texts = sorted@.map_values(|a: CliArg| arg_text(a));
    let mut out = chars_of(exe_name);
    let mut i: usize = 0;
    while i < sorted.len()
        invariant
            i <= sorted.len(),
            texts == sorted@.map_values(|a: CliArg| arg_text(a)),
            out@ == exe_name@ + concat_all(texts.take(i as int)),
        decreases sorted.len() - i,
    {
        assert(texts.take(i + 1).drop_last() =~= texts.take(i as int));
        push_arg(&mut out, &sorted[i]);
        i += 1;
    }
    assert(texts.take(sorted.len() as int) =~= texts);
    string_from_chars(&out)
}

} // verus!
