//! Text fields typed into from the keyboard: the map size fields, the layer
//! name field and the palette search field.
use vstd::prelude::*;

use crate::text::{all_digits, blank, chars_of, decimal, decimal_chars, digits_value, string_from, trim_string, trimmed};

verus! {

/// `String::pop` removes and returns the last character, or returns `None`
/// for an empty string.
pub assume_specification[ String::pop ](s: &mut String) -> (r: Option<char>)
    ensures
        old(s)@.len() == 0 ==> r is None && final(s)@ == old(s)@,
        old(s)@.len() > 0 ==> r == Some(old(s)@.last()) && final(s)@ == old(s)@.drop_last(),
;

/// A key typed into a text field.
#[derive(Clone, Copy, Debug, PartialEq, Eq, Structural)]
pub enum TextKey {
    /// A character key.
    Char(char),
    /// Deletes the last character.
    Backspace,
    /// Leaves the field.
    Escape,
    /// Confirms and leaves the field.
    Enter,
}

/// The number of UTF-8 bytes of `s`, as `str::len` reports it.
pub open spec fn byte_len(s: Seq<char>) -> usize {
    vstd::utf8::encode_utf8(s).len() as usize
}

/// The text after typing `key` into a field holding `s` limited to `limit`
/// bytes: a character is appended while the text is shorter than the limit,
/// backspace removes the last character, other keys leave it.
pub open spec fn typed(s: Seq<char>, key: TextKey, limit: nat) -> Seq<char> {
    match key {
        TextKey::Char(c) => if byte_len(s) < limit {
            s.push(c)
        } else {
            s
        },
        TextKey::Backspace => if s.len() > 0 {
            s.drop_last()
        } else {
            s
        },
        _ => s,
    }
}

fn type_into(buf: &mut String, key: TextKey, limit: usize)
    ensures
        final(buf)@ == typed(old(buf)@, key, limit as nat),
{
    match key {
        TextKey::Char(c) => {
            if buf.as_str().len() < limit {
                buf.push(c);
            }
        },
        TextKey::Backspace => {
            let _ = buf.pop();
        },
        _ => {},
    }
}

/// Which map size field has the keyboard.
#[derive(Clone, Copy, Debug, PartialEq, Eq, Structural)]
pub enum MapSizeFocus {
    NoField,
    Width,
    Height,
}

impl Default for MapSizeFocus {
    fn default() -> (r: Self)
        ensures
            r == MapSizeFocus::NoField,
    {
        MapSizeFocus::NoField
    }
}

/// The map size fields: their texts, which one has the keyboard, and
/// whether applying the size was asked for.
#[derive(Debug)]
pub struct MapSizeInput {
    pub width_buf: String,
    pub height_buf: String,
    pub focus: MapSizeFocus,
    pub apply_requested: bool,
}

/// Longest text of a map size field, in bytes.
pub const MAP_SIZE_FIELD_LIMIT: usize = 5;

/// Longest text of the layer name and palette search fields, in bytes.
pub const NAME_FIELD_LIMIT: usize = 32;

impl MapSizeInput {
    /// Typing `key` into the focused map size field; nothing happens without
    /// focus. Escape leaves the field; Enter leaves it and asks to apply.
    pub fn type_key(&mut self, key: TextKey)
        ensures
            old(self).focus == MapSizeFocus::NoField ==> *final(self) == *old(self),
            old(self).focus != MapSizeFocus::NoField ==> {
                &&& final(self).width_buf@ == if old(self).focus == MapSizeFocus::Width {
                    typed(old(self).width_buf@, key, MAP_SIZE_FIELD_LIMIT as nat)
                } else {
                    old(self).width_buf@
                }
                &&& final(self).height_buf@ == if old(self).focus == MapSizeFocus::Height {
                    typed(old(self).height_buf@, key, MAP_SIZE_FIELD_LIMIT as nat)
                } else {
                    old(self).height_buf@
                }
                &&& final(self).focus == if key == TextKey::Escape || key == TextKey::Enter {
                    MapSizeFocus::NoField
                } else {
                    old(self).focus
                }
                &&& final(self).apply_requested == (old(self).apply_requested || key == TextKey::Enter)
            },
    {
        match self.focus {
            MapSizeFocus::NoField => return,
            MapSizeFocus::Width => type_into(&mut self.width_buf, key, MAP_SIZE_FIELD_LIMIT),
            MapSizeFocus::Height => type_into(&mut self.height_buf, key, MAP_SIZE_FIELD_LIMIT),
        }
        if key == TextKey::Escape {
            self.focus = MapSizeFocus::NoField;
        }
        if key == TextKey::Enter {
            self.apply_requested = true;
            self.focus = MapSizeFocus::NoField;
        }
    }

    /// While no field has the keyboard, the fields show the current map size.
    pub fn sync_from_size(&mut self, width: u32, height: u32)
        ensures
            old(self).focus != MapSizeFocus::NoField ==> *final(self) == *old(self),
            old(self).focus == MapSizeFocus::NoField ==> {
                &&& final(self).width_buf@ == decimal(width as nat)
                &&& final(self).height_buf@ == decimal(height as nat)
                &&& final(self).focus == old(self).focus
                &&& final(self).apply_requested == old(self).apply_requested
            },
    {
        if self.focus != MapSizeFocus::NoField {
            return;
        }
        let w = decimal_chars(width);
        let h = decimal_chars(height);
        self.width_buf = string_from(w.as_slice());
        self.height_buf = string_from(h.as_slice());
    }
}

/// What `u32::from_str` accepts: an optional `+` and then one or more ASCII
/// digits whose value fits in a `u32`.
pub open spec fn std_parsed_u32(s: Seq<char>) -> Option<u32> {
    let d = if s.len() > 0 && s[0] == '+' {
        s.drop_first()
    } else {
        s
    };
    if d.len() > 0 && all_digits(d) && digits_value(d) <= u32::MAX {
        Some(digits_value(d) as u32)
    } else {
        None
    }
}

/// Reads a `u32` the way `str::parse::<u32>` does.
pub fn parse_u32_strict(s: &str) -> (r: Option<u32>)
    ensures
        r == std_parsed_u32(s@),
{
    let v = chars_of(s);
    let start: usize = if v.len() > 0 && v[0] == '+' { 1 } else { 0 };
    let d = crate::text::slice_chars(v.as_slice(), start, v.len());
    proof {
        if start == 1 {
            assert(d@ == s@.drop_first());
        } else {
            assert(d@ == s@);
        }
    }
    let ghost dd = if s@.len() > 0 && s@[0] == '+' {
        s@.drop_first()
    } else {
        s@
    };
    assert(d@ == dd);
    let n = d.len();
    if n == 0 {
        return None;
    }
    let mut i: usize = 0;
    while i < n
        invariant
            n == d@.len(),
            d@ == dd,
            dd == (if s@.len() > 0 && s@[0] == '+' {
                s@.drop_first()
            } else {
                s@
            }),
            i <= n,
            forall|k: int| 0 <= k < i ==> crate::text::is_digit(#[trigger] d@[k]),
        decreases n - i,
    {
        let c = d[i];
        if !(c >= '0' && c <= '9') {
            proof {
                assert(!crate::text::is_digit(d@[i as int]));
                assert(!all_digits(d@));
            }
            return None;
        }
        i = i + 1;
    }
    assert(all_digits(d@));
    let mut value: u64 = 0;
    let mut i: usize = 0;
    while i < n
        invariant
            n == d@.len(),
            d@ == dd,
            dd == (if s@.len() > 0 && s@[0] == '+' {
                s@.drop_first()
            } else {
                s@
            }),
            i <= n,
            all_digits(d@),
            value == digits_value(d@.take(i as int)),
            value <= u32::MAX,
        decreases n - i,
    {
        let c = d[i];
        let dv: u64 = (c as u32 - '0' as u32) as u64;
        proof {
            assert(d@.take(i + 1).drop_last() == d@.take(i as int));
            assert(crate::text::is_digit(d@[i as int]));
            assert(d@.take(i + 1).last() == d@[i as int]);
            assert(digits_value(d@.take(i + 1)) == digits_value(d@.take(i as int)) * 10
                + crate::text::digit_value(d@[i as int]));
        }
        value = value * 10 + dv;
        if value > 4294967295u64 {
            proof {
                crate::text::lemma_digits_prefix(d@, i + 1);
            }
            return None;
        }
        i = i + 1;
    }
    proof {
        assert(d@.take(n as int) == d@);
    }
    Some(value as u32)
}

/// The map size that the fields ask for: both texts read as numbers and
/// neither is zero.
pub fn requested_map_size(input: &MapSizeInput) -> (r: Option<(u32, u32)>)
    ensures
        r == match (std_parsed_u32(input.width_buf@), std_parsed_u32(input.height_buf@)) {
            (Some(w), Some(h)) => if w == 0 || h == 0 {
                None
            } else {
                Some((w, h))
            },
            _ => None,
        },
{
    let w = match parse_u32_strict(input.width_buf.as_str()) {
        Some(w) => w,
        None => return None,
    };
    let h = match parse_u32_strict(input.height_buf.as_str()) {
        Some(h) => h,
        None => return None,
    };
    if w == 0 || h == 0 {
        return None;
    }
    Some((w, h))
}

/// The layer name field.
#[derive(Debug)]
pub struct LayerNameInput {
    pub buf: String,
    pub focused: bool,
    pub apply_requested: bool,
}

impl LayerNameInput {
    /// Typing `key` into the field when it has the keyboard.
    pub fn type_key(&mut self, key: TextKey)
        ensures
            !old(self).focused ==> *final(self) == *old(self),
            old(self).focused ==> {
                &&& final(self).buf@ == typed(old(self).buf@, key, NAME_FIELD_LIMIT as nat)
                &&& final(self).focused == !(key == TextKey::Escape || key == TextKey::Enter)
                &&& final(self).apply_requested == (old(self).apply_requested || key == TextKey::Enter)
            },
    {
        if !self.focused {
            return;
        }
        type_into(&mut self.buf, key, NAME_FIELD_LIMIT);
        if key == TextKey::Escape {
            self.focused = false;
        }
        if key == TextKey::Enter {
            self.apply_requested = true;
            self.focused = false;
        }
    }
}

/// The palette search field.
#[derive(Debug)]
pub struct PaletteSearchInput {
    pub buf: String,
    pub focused: bool,
}

impl PaletteSearchInput {
    /// Typing `key` into the search field when it has the keyboard; returns
    /// whether the search text changed.
    pub fn type_key(&mut self, key: TextKey) -> (changed: bool)
        ensures
            !old(self).focused ==> *final(self) == *old(self) && !changed,
            old(self).focused ==> {
                &&& final(self).buf@ == typed(old(self).buf@, key, NAME_FIELD_LIMIT as nat)
                &&& final(self).focused == !(key == TextKey::Escape || key == TextKey::Enter)
                &&& changed == (final(self).buf@ != old(self).buf@)
            },
    {
        if !self.focused {
            return false;
        }
        let ghost before = self.buf@;
        let changed = match key {
            TextKey::Char(c) => self.buf.as_str().len() < NAME_FIELD_LIMIT,
            TextKey::Backspace => !self.buf.as_str().is_empty(),
            _ => false,
        };
        proof {
            if let TextKey::Char(c) = key {
                if changed {
                    assert(before.push(c).len() != before.len());
                }
            }
        }
        type_into(&mut self.buf, key, NAME_FIELD_LIMIT);
        if key == TextKey::Escape || key == TextKey::Enter {
            self.focused = false;
        }
        proof {
            if key is Backspace && before.len() > 0 {
                assert(before.drop_last().len() != before.len());
            }
        }
        changed
    }
}

/// The name a layer gets from the name field: the trimmed text, or
/// `Layer n` (counting layers from 1) when the text is blank.
pub open spec fn layer_name_for(buf: Seq<char>, active: u32) -> Seq<char> {
    if blank(buf) {
        "Layer "@ + decimal(active as nat + 1)
    } else {
        trimmed(buf)
    }
}

/// The name to give layer `active` from the name field's text.
pub fn resolved_layer_name(buf: &str, active: u32) -> (r: String)
    requires
        active < u32::MAX,
    ensures
        r@ == layer_name_for(buf@, active),
{
    let t = trim_string(buf);
    if t.as_str().is_empty() {
        let mut v = chars_of("Layer ");
        let d = decimal_chars(active + 1);
        let mut i: usize = 0;
        let ghost start = v@;
        while i < d.len()
            invariant
                i <= d@.len(),
                v@ == start + d@.take(i as int),
            decreases d@.len() - i,
        {
            v.push(d[i]);
            proof {
                assert(d@.take(i + 1) == d@.take(i as int).push(d@[i as int]));
            }
            i = i + 1;
        }
        proof {
            assert(d@.take(d@.len() as int) == d@);
        }
        string_from(v.as_slice())
    } else {
        t
    }
}

} // verus!
