//! The heading signature: a command's name and its positional arguments,
//! as written in the text of a heading, `name (required) [optional]`.

use vstd::prelude::*;
use crate::maskfile::{OptionalArg, RequiredArg};
use crate::text::{
    chars_of, contains_char, find_first, first_of, slice_chars, split, split_chars, string_of,
    trim, trim_chars, views,
};

verus! {

/// Where the arguments of a heading start: at its first `(` or `[`, or at
/// its end where it has neither.
pub open spec fn args_start(text: Seq<char>) -> int {
    first_of(text, '(', '[')
}

/// The command name: what stands before the arguments, trimmed.
pub open spec fn heading_name(text: Seq<char>) -> Seq<char> {
    trim(text.take(args_start(text)))
}

/// The pieces that name an argument: each piece trimmed, those left out
/// that are empty or hold `other`, the opening bracket of the other kind.
pub open spec fn named_pieces(pieces: Seq<Seq<char>>, other: char) -> Seq<Seq<char>>
    decreases pieces.len(),
{
    if pieces.len() == 0 {
        Seq::empty()
    } else {
        let before = named_pieces(pieces.drop_last(), other);
        let name = trim(pieces.last());
        if name.len() > 0 && !name.contains(other) {
            before.push(name)
        } else {
            before
        }
    }
}

/// The names of the required arguments, in the order written: the argument
/// part split at round brackets.
pub open spec fn required_names(text: Seq<char>) -> Seq<Seq<char>> {
    named_pieces(split(text.skip(args_start(text)), '(', ')'), '[')
}

/// The names of the optional arguments, in the order written: the argument
/// part split at square brackets.
pub open spec fn optional_names(text: Seq<char>) -> Seq<Seq<char>> {
    named_pieces(split(text.skip(args_start(text)), '[', ']'), '(')
}

/// Every name that `named_pieces` keeps is trimmed, not empty and free of
/// `other`, and there are no more names than pieces.
pub proof fn law_named_pieces(pieces: Seq<Seq<char>>, other: char)
    ensures
        named_pieces(pieces, other).len() <= pieces.len(),
        forall|k: int|
            0 <= k < named_pieces(pieces, other).len() ==> {
                &&& (#[trigger] named_pieces(pieces, other)[k]).len() > 0
                &&& !named_pieces(pieces, other)[k].contains(other)
            },
    decreases pieces.len(),
{
    if pieces.len() > 0 {
        law_named_pieces(pieces.drop_last(), other);
    }
}

/// The names of the arguments written between `open` and `close`.
fn argument_names(args: &Vec<char>, open: char, close: char, other: char) -> (names: Vec<Vec<char>>)
    ensures
        views(names@) == named_pieces(split(args@, open, close), other),
{
    let pieces = split_chars(args, open, close);
    let mut names: Vec<Vec<char>> = Vec::new();
    let mut i: usize = 0;
    while i < pieces.len()
        invariant
            i <= pieces.len(),
            views(names@) == named_pieces(views(pieces@).take(i as int), other),
        decreases pieces.len() - i,
    {
        let name = trim_chars(&pieces[i]);
        proof {
            assert(views(pieces@).take(i + 1).drop_last() =~= views(pieces@).take(i as int));
        }
        if name.len() > 0 && !contains_char(&name, other) {
            names.push(name);
        }
        i += 1;
    }
    assert(views(pieces@).take(pieces.len() as int) =~= views(pieces@));
    names
}

/// Reads a heading's text as a command name, the required arguments and the
/// optional arguments. The two lists are read independently of each other.
pub fn parse_command_name_required_and_optional_args(text: String) -> (r: (
    String,
    Vec<RequiredArg>,
    Vec<OptionalArg>,
))
    ensures
        r.0@ == heading_name(text@),
        views(r.1@) == required_names(text@),
        views(r.2@) == optional_names(text@),
{
    let chars = chars_of(text.as_str());
    let start = find_first(&chars, '(', '[');
    let name = string_of(&trim_chars(&slice_chars(&chars, 0, start)));
    let args = slice_chars(&chars, start, chars.len());
    let required_names = argument_names(&args, '(', ')', '[');
    let mut required: Vec<RequiredArg> = Vec::new();
    let mut i: usize = 0;
    while i < required_names.len()
        invariant
            i <= required_names.len(),
            required.len() == i,
            forall|j: int| 0 <= j < i ==> required@[j]@ == required_names@[j]@,
        decreases required_names.len() - i,
    {
        required.push(RequiredArg::new(string_of(&required_names[i])));
        i += 1;
    }
    let optional_names = argument_names(&args, '[', ']', '(');
    let mut optional: Vec<OptionalArg> = Vec::new();
    let mut k: usize = 0;
    while k < optional_names.len()
        invariant
            k <= optional_names.len(),
            optional.len() == k,
            forall|j: int| 0 <= j < k ==> optional@[j]@ == optional_names@[j]@,
        decreases optional_names.len() - k,
    {
        optional.push(OptionalArg::new(string_of(&optional_names[k])));
        k += 1;
    }
    (name, required, optional)
}

} // verus!
