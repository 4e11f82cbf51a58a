use vstd::prelude::*;
use vstd::string::*;

use crate::table::{
    extension_description, has_key, insert_entry, key_pos, table_wf, with_codes, ColorMap,
    ItemView, LsItem,
};
use crate::text::{is_extension, is_extension_key};
use crate::types::{
    parse_background, parse_color, parse_style, Background, Color, ParseError, Style,
};

verus! {

/// Why a command was refused; each holds the text it was refused on.
#[derive(Debug)]
pub enum CommandError {
    /// No rule has this key.
    UnknownKey(String),
    /// The field is not one of `style`, `color`, `bg`.
    InvalidField(String),
    /// The value is no code of the field's type.
    InvalidCodeValue(ParseError),
    /// A rule with this key is already in the table.
    DuplicateKey(String),
    /// Only keys of the form `*.ext` can be added.
    InvalidExtensionFormat(String),
    /// No extension rule has this key.
    NothingToRemove(String),
}

/// Three optional codes: style, foreground, background.
pub type Codes = (Option<Style>, Option<Color>, Option<Background>);

/// Whether `what` names a field of a rule.
pub open spec fn is_field(what: Seq<char>) -> bool {
    what == "style"@ || what == "color"@ || what == "bg"@
}

/// The codes that setting field `what` to `value` gives, with the other two
/// unset, if `value` is a code of that field's type.
pub open spec fn field_codes(what: Seq<char>, value: Seq<char>) -> Option<Codes> {
    if what == "style"@ {
        match parse_style(value) {
            Some(s) => Some((Some(s), None, None)),
            None => None,
        }
    } else if what == "color"@ {
        match parse_color(value) {
            Some(c) => Some((None, Some(c), None)),
            None => None,
        }
    } else if what == "bg"@ {
        match parse_background(value) {
            Some(b) => Some((None, None, Some(b))),
            None => None,
        }
    } else {
        None
    }
}

/// `b` where it is set, else `a`.
pub open spec fn overlay<T>(a: Option<T>, b: Option<T>) -> Option<T> {
    if b is Some {
        b
    } else {
        a
    }
}

/// Whether `a` and `b` are the same text.
pub fn same_text(a: &str, b: &str) -> (r: bool)
    ensures
        r == (a@ == b@),
{
    let n = a.unicode_len();
    if n != b.unicode_len() {
        return false;
    }
    let mut i: usize = 0;
    while i < n
        invariant
            n == a@.len(),
            n == b@.len(),
            i <= n,
            forall|j: int| 0 <= j < i ==> a@[j] == b@[j],
        decreases n - i,
    {
        if a.get_char(i) != b.get_char(i) {
            return false;
        }
        i = i + 1;
    }
    assert(a@ =~= b@);
    true
}

/// Reads `value` as a code of the field `what`.
pub fn read_field(what: &str, value: &str) -> (r: Result<Codes, CommandError>)
    ensures
        match r {
            Ok(c) => field_codes(what@, value@) == Some(c),
            Err(e) => field_codes(what@, value@).is_none() && if is_field(what@) {
                e is InvalidCodeValue
            } else {
                e is InvalidField
            },
        },
{
    if same_text(what, "style") {
        match Style::from_str(value) {
            Ok(s) => Ok((Some(s), None, None)),
            Err(e) => Err(CommandError::InvalidCodeValue(e)),
        }
    } else if same_text(what, "color") {
        match Color::from_str(value) {
            Ok(c) => Ok((None, Some(c), None)),
            Err(e) => Err(CommandError::InvalidCodeValue(e)),
        }
    } else if same_text(what, "bg") {
        match Background::from_str(value) {
            Ok(b) => Ok((None, None, Some(b))),
            Err(e) => Err(CommandError::InvalidCodeValue(e)),
        }
    } else {
        Err(CommandError::InvalidField(what.to_string()))
    }
}

/// Sets one field of the rule `which` to the code `value`.
pub fn set_action(map: &mut ColorMap, which: &str, what: &str, value: &str) -> (r: Result<
    (),
    CommandError,
>)
    requires
        table_wf(old(map)@),
    ensures
        table_wf(final(map)@),
        r is Ok <==> has_key(old(map)@, which@) && field_codes(what@, value@) is Some,
        r is Ok ==> ({
            let p = key_pos(old(map)@, which@);
            let old_item = old(map)@[p].1;
            let c = field_codes(what@, value@).unwrap();
            final(map)@ == with_codes(
                old(map)@,
                p,
                overlay(old_item.style, c.0),
                overlay(old_item.color, c.1),
                overlay(old_item.bg, c.2),
            )
        }),
        r is Err ==> final(map)@ == old(map)@,
        !has_key(old(map)@, which@) ==> r matches Err(CommandError::UnknownKey(_)),
        has_key(old(map)@, which@) && !is_field(what@) ==> r matches Err(
            CommandError::InvalidField(_),
        ),
        has_key(old(map)@, which@) && is_field(what@) && field_codes(what@, value@) is None ==> r matches Err(
            CommandError::InvalidCodeValue(_),
        ),
{
    match map.position(which) {
        None => Err(CommandError::UnknownKey(which.to_string())),
        Some(p) => {
            let codes = read_field(what, value)?;
            let (_, item) = map.entry(p);
            let style = if codes.0.is_some() { codes.0 } else { item.style };
            let color = if codes.1.is_some() { codes.1 } else { item.color };
            let bg = if codes.2.is_some() { codes.2 } else { item.bg };
            map.update_codes(p, style, color, bg);
            Ok(())
        },
    }
}

/// Adds a rule for the new extension key `which` with one field set.
pub fn add_action(map: &mut ColorMap, which: &str, what: &str, value: &str) -> (r: Result<
    (),
    CommandError,
>)
    requires
        table_wf(old(map)@),
        old(map)@.len() < usize::MAX,
    ensures
        table_wf(final(map)@),
        r is Ok <==> !has_key(old(map)@, which@) && is_extension_key(which@) && field_codes(
            what@,
            value@,
        ) is Some,
        r is Ok ==> ({
            let c = field_codes(what@, value@).unwrap();
            final(map)@ == insert_entry(
                old(map)@,
                which@,
                ItemView {
                    style: c.0,
                    color: c.1,
                    bg: c.2,
                    description: extension_description(which@),
                    order: old(map)@.len() as int + 1,
                },
            )
        }),
        r is Err ==> final(map)@ == old(map)@,
        has_key(old(map)@, which@) ==> r matches Err(CommandError::DuplicateKey(_)),
        !has_key(old(map)@, which@) && !is_extension_key(which@) ==> r matches Err(
            CommandError::InvalidExtensionFormat(_),
        ),
        !has_key(old(map)@, which@) && is_extension_key(which@) && !is_field(what@) ==> r matches Err(
            CommandError::InvalidField(_),
        ),
        !has_key(old(map)@, which@) && is_extension_key(which@) && is_field(what@) && field_codes(
            what@,
            value@,
        ) is None ==> r matches Err(CommandError::InvalidCodeValue(_)),
{
    if map.contains_key(which) {
        return Err(CommandError::DuplicateKey(which.to_string()));
    }
    if !is_extension(which) {
        return Err(CommandError::InvalidExtensionFormat(which.to_string()));
    }
    let (style, color, bg) = read_field(what, value)?;
    let mut description = String::from_str("file extension: ");
    description.append(which);
    let order = map.len() + 1;
    let item = LsItem { style, color, bg, description, order };
    map.insert_item(which.to_string(), item);
    Ok(())
}

/// Deletes the extension rule `which`, or clears the codes of the built-in
/// rule `which`.
pub fn remove_action(map: &mut ColorMap, which: &str) -> (r: Result<(), CommandError>)
    requires
        table_wf(old(map)@),
    ensures
        table_wf(final(map)@),
        r is Ok <==> has_key(old(map)@, which@),
        r is Ok && is_extension_key(which@) ==> final(map)@ == old(map)@.remove(
            key_pos(old(map)@, which@),
        ),
        r is Ok && !is_extension_key(which@) ==> final(map)@ == with_codes(
            old(map)@,
            key_pos(old(map)@, which@),
            None,
            None,
            None,
        ),
        r is Err ==> final(map)@ == old(map)@,
        !has_key(old(map)@, which@) && is_extension_key(which@) ==> r matches Err(
            CommandError::NothingToRemove(_),
        ),
        !has_key(old(map)@, which@) && !is_extension_key(which@) ==> r matches Err(
            CommandError::UnknownKey(_),
        ),
{
    let found = map.position(which);
    if is_extension(which) {
        match found {
            Some(p) => {
                map.remove_at(p);
                Ok(())
            },
            None => Err(CommandError::NothingToRemove(which.to_string())),
        }
    } else {
        match found {
            Some(p) => {
                map.update_codes(p, None, None, None);
                Ok(())
            },
            None => Err(CommandError::UnknownKey(which.to_string())),
        }
    }
}

} // verus!
