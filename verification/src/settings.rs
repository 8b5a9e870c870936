//! Settings that are read from the environment and the configuration.

use vstd::prelude::*;

use crate::number::{
    decimal_spec, is_digit, law_decimals_are_read_back, lemma_decimal_value, parse, parse_spec,
};
use crate::text::{is_blank, is_white, opt_view, same_text, trim, trim_spec, CharClass};
use crate::text_laws::{law_trimmed, law_trimmed_around};

verus! {

/// The value of a variable, where it holds more than white space.
pub open spec fn nonempty_spec(value: Option<Seq<char>>) -> Option<Seq<char>> {
    match value {
        Some(text) => if trim_spec(text).len() > 0 {
            Some(text)
        } else {
            None
        },
        None => None,
    }
}

pub fn nonempty_env(value: Option<String>) -> (res: Option<String>)
    ensures
        opt_view(res) == nonempty_spec(opt_view(value)),
{
    match value {
        Some(text) => if is_blank(text.as_str()) {
            None
        } else {
            Some(text)
        },
        None => None,
    }
}

/// The number that a variable holds, with white space around it or not.
pub open spec fn number_spec(value: Option<Seq<char>>) -> Option<nat> {
    match nonempty_spec(value) {
        Some(text) => parse_spec(trim_spec(text), u32::MAX as nat),
        None => None,
    }
}

pub fn optional_u32(value: Option<String>) -> (res: Option<u32>)
    ensures
        match res {
            Some(n) => number_spec(opt_view(value)) == Some(n as nat),
            None => number_spec(opt_view(value)) is None,
        },
{
    match nonempty_env(value) {
        Some(text) => match parse(trim(text.as_str()).as_str(), u32::MAX as u64) {
            Some(n) => Some(n as u32),
            None => None,
        },
        None => None,
    }
}

/// What a named provider profile speaks.
#[derive(Debug, Clone, Copy, PartialEq, Eq, Structural)]
pub enum NamedProviderType {
    AnthropicCompatible,
    Other,
}

/// A named provider profile of the configuration.
#[derive(Debug)]
pub struct NamedProfile {
    pub name: String,
    pub provider_type: NamedProviderType,
}

/// The kind of the profile with this name: of the first, where there are more.
pub open spec fn profile_type(profiles: Seq<NamedProfile>, name: Seq<char>) -> Option<
    NamedProviderType,
>
    decreases profiles.len(),
{
    if profiles.len() == 0 {
        None
    } else if profiles[0].name@ == name {
        Some(profiles[0].provider_type)
    } else {
        profile_type(profiles.drop_first(), name)
    }
}

/// Whether the selected profile exists and is one for Anthropic's interface.
pub fn active_is_anthropic(selected: &Option<String>, profiles: &Vec<NamedProfile>) -> (res: bool)
    ensures
        res == (selected is Some && profile_type(profiles@, selected->0@) == Some(
            NamedProviderType::AnthropicCompatible,
        )),
{
    let name = match selected {
        Some(name) => name,
        None => {
            return false;
        },
    };
    let mut i: usize = 0;
    assert(profiles@.skip(0) =~= profiles@);
    while i < profiles.len()
        invariant
            i <= profiles@.len(),
            *selected == Some(*name),
            profile_type(profiles@, name@) == profile_type(profiles@.skip(i as int), name@),
        decreases profiles@.len() - i,
    {
        assert(profiles@.skip(i as int)[0] == profiles@[i as int]);
        assert(profiles@.skip(i as int).drop_first() =~= profiles@.skip(i + 1));
        if same_text(profiles[i].name.as_str(), name.as_str()) {
            return profiles[i].provider_type == NamedProviderType::AnthropicCompatible;
        }
        i += 1;
    }
    false
}

/// A blank value counts as none, and a number is read only from a value that
/// is not blank.
pub proof fn law_blank_values_are_none(text: Seq<char>)
    requires
        trim_spec(text).len() == 0,
    ensures
        nonempty_spec(Some(text)) is None,
        number_spec(Some(text)) is None,
{
}

/// A value that holds more than white space is taken as it is.
pub proof fn law_filled_values_are_taken(text: Seq<char>, k: int)
    requires
        0 <= k < text.len(),
        !is_white(text[k]),
    ensures
        nonempty_spec(Some(text)) == Some(text),
        nonempty_spec(None) is None,
{
    law_trimmed(text, CharClass::White);
    assert(!CharClass::White.has(text[k]));
}

/// A number is read with white space around it or not, where it fits in
/// thirty-two bits, and not at all where it does not.
pub proof fn law_numbers_are_read(n: nat, before: Seq<char>, after: Seq<char>)
    requires
        forall|k: int| 0 <= k < before.len() ==> is_white(#[trigger] before[k]),
        forall|k: int| 0 <= k < after.len() ==> is_white(#[trigger] after[k]),
    ensures
        n <= u32::MAX ==> number_spec(Some(before + decimal_spec(n) + after)) == Some(n),
        n > u32::MAX ==> number_spec(Some(before + decimal_spec(n) + after)) is None,
{
    law_decimals_are_read_back(n, u32::MAX as nat);
    lemma_decimal_value(n);
    let digits = decimal_spec(n);
    assert(is_digit(digits[0]));
    assert(is_digit(digits[digits.len() - 1]));
    law_trimmed_around(before, digits, after, CharClass::White);
}

/// The kind of a profile is that of the first one with its name, and there is
/// none where no profile has that name.
pub proof fn law_first_profiles_count(profiles: Seq<NamedProfile>, name: Seq<char>)
    ensures
        forall|k: int|
            0 <= k < profiles.len() && (#[trigger] profiles[k]).name@ == name && (forall|j: int|
                0 <= j < k ==> (#[trigger] profiles[j]).name@ != name) ==> profile_type(
                profiles,
                name,
            ) == Some(profiles[k].provider_type),
        (forall|k: int| 0 <= k < profiles.len() ==> (#[trigger] profiles[k]).name@ != name)
            ==> profile_type(profiles, name) is None,
    decreases profiles.len(),
{
    if profiles.len() > 0 && profiles[0].name@ != name {
        let rest = profiles.drop_first();
        law_first_profiles_count(rest, name);
        assert forall|k: int|
            0 <= k < profiles.len() && (#[trigger] profiles[k]).name@ == name && (forall|j: int|
                0 <= j < k ==> (#[trigger] profiles[j]).name@ != name) implies profile_type(
            profiles,
            name,
        ) == Some(profiles[k].provider_type) by {
            assert(rest[k - 1] == profiles[k]);
            assert forall|j: int| 0 <= j < k - 1 implies (#[trigger] rest[j]).name@ != name by {
                assert(rest[j] == profiles[j + 1]);
            }
        }
        if forall|k: int| 0 <= k < profiles.len() ==> (#[trigger] profiles[k]).name@ != name {
            assert forall|k: int| 0 <= k < rest.len() implies (#[trigger] rest[k]).name@
                != name by {
                assert(rest[k] == profiles[k + 1]);
            }
        }
    }
}

} // verus!
