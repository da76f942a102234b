//! The settings of a named flag, as written in the nested items of an
//! options list: `key: value`, one setting per item.

use vstd::prelude::*;
use crate::maskfile::{NamedFlag, NamedFlagView};
use crate::text::{
    chars_equal, chars_of, find_first, first_of, slice_chars, split_words, string_of, trim,
    trim_chars, views, words,
};

verus! {

/// The key of a setting: what stands before the first colon, trimmed. A
/// text without a colon is a key as a whole.
pub open spec fn setting_key(text: Seq<char>) -> Seq<char> {
    trim(text.take(first_of(text, ':', ':')))
}

/// The value of a setting: what stands after the first colon, trimmed. A
/// text without a colon has the empty value.
pub open spec fn setting_value(text: Seq<char>) -> Seq<char> {
    let colon = first_of(text, ':', ':');
    if colon < text.len() {
        trim(text.skip(colon + 1))
    } else {
        Seq::empty()
    }
}

/// The flag after one word of a `flags` setting. A word that starts with
/// `--` gives the long form, the text behind the two dashes. Any other word
/// that starts with `-` gives the short form, the one character behind
/// the dash, if there is one. Other words change nothing.
pub open spec fn with_form(flag: NamedFlagView, word: Seq<char>) -> NamedFlagView {
    if word.len() >= 2 && word[0] == '-' && word[1] == '-' {
        NamedFlagView { long: word.skip(2), ..flag }
    } else if word.len() >= 1 && word[0] == '-' {
        NamedFlagView { short: word.subrange(1, if word.len() >= 2 { 2 } else { 1 }), ..flag }
    } else {
        flag
    }
}

/// The flag after each word of `forms` in turn.
pub open spec fn with_forms(flag: NamedFlagView, forms: Seq<Seq<char>>) -> NamedFlagView
    decreases forms.len(),
{
    if forms.len() == 0 {
        flag
    } else {
        with_form(with_forms(flag, forms.drop_last()), forms.last())
    }
}

/// The flag after the setting that `text` holds.
///
/// `desc` sets the description. `type` with the value `string` or `number`
/// makes the flag take a value, and `number` makes that value a number.
/// `flags` gives the short and the long form. `required` makes the flag
/// required, whatever its value. Any other key changes nothing.
pub open spec fn configured(flag: NamedFlagView, text: Seq<char>) -> NamedFlagView {
    let key = setting_key(text);
    let value = setting_value(text);
    if key == "desc"@ {
        NamedFlagView { description: value, ..flag }
    } else if key == "type"@ {
        NamedFlagView {
            takes_value: flag.takes_value || value == "string"@ || value == "number"@,
            validate_as_number: flag.validate_as_number || value == "number"@,
            ..flag
        }
    } else if key == "flags"@ {
        with_forms(flag, words(value))
    } else if key == "required"@ {
        NamedFlagView { required: true, ..flag }
    } else {
        flag
    }
}

/// Applies one word of a `flags` setting to `flag`.
fn apply_form(flag: &mut NamedFlag, word: &Vec<char>)
    ensures
        final(flag)@ == with_form(old(flag)@, word@),
{
    if word.len() >= 2 && word[0] == '-' && word[1] == '-' {
        let long = slice_chars(word, 2, word.len());
        flag.long = string_of(&long);
    } else if word.len() >= 1 && word[0] == '-' {
        let end: usize = if word.len() >= 2 { 2 } else { 1 };
        let short = slice_chars(word, 1, end);
        flag.short = string_of(&short);
    }
}

/// Applies to `flag` the setting that `text` holds.
pub fn apply_setting(flag: &mut NamedFlag, text: &str)
    ensures
        final(flag)@ == configured(old(flag)@, text@),
{
    let chars = chars_of(text);
    let colon = find_first(&chars, ':', ':');
    let key = trim_chars(&slice_chars(&chars, 0, colon));
    let value = if colon < chars.len() {
        trim_chars(&slice_chars(&chars, colon + 1, chars.len()))
    } else {
        Vec::new()
    };
    if chars_equal(&key, "desc") {
        flag.description = string_of(&value);
    } else if chars_equal(&key, "type") {
        if chars_equal(&value, "string") || chars_equal(&value, "number") {
            flag.takes_value = true;
        }
        if chars_equal(&value, "number") {
            flag.validate_as_number = true;
        }
    } else if chars_equal(&key, "flags") {
        let forms = split_words(&value);
        let mut i: usize = 0;
        while i < forms.len()
            invariant
                i <= forms.len(),
                flag@ == with_forms(old(flag)@, views(forms@).take(i as int)),
            decreases forms.len() - i,
        {
            proof {
                assert(views(forms@).take(i + 1).drop_last() =~= views(forms@).take(i as int));
            }
            apply_form(flag, &forms[i]);
            i += 1;
        }
        assert(views(forms@).take(forms.len() as int) =~= views(forms@));
    } else if chars_equal(&key, "required") {
        flag.required = true;
    }
}

/// A setting leaves the short form of a flag at one character at most.
pub proof fn law_short_form_stays_short(flag: NamedFlagView, text: Seq<char>)
    requires
        flag.short.len() <= 1,
    ensures
        configured(flag, text).short.len() <= 1,
{
    lemma_forms_keep_short(flag, words(setting_value(text)));
}

/// The words of a `flags` setting leave the short form at one character at
/// most.
proof fn lemma_forms_keep_short(flag: NamedFlagView, forms: Seq<Seq<char>>)
    requires
        flag.short.len() <= 1,
    ensures
        with_forms(flag, forms).short.len() <= 1,
    decreases forms.len(),
{
    if forms.len() > 0 {
        lemma_forms_keep_short(flag, forms.drop_last());
    }
}

} // verus!
