use vstd::prelude::*;
use vstd::string::*;

use crate::commands::{same_text, Codes};
use crate::table::{
    code_text, extension_description, has_key, insert_entry, key_pos, table_wf, with_codes,
    ColorMap, Entry, ItemView, LsItem,
};
use crate::text::{lemma_split_all_len, cut_all, cut_once, join, join_all, split_all, split_once};
use crate::types::{parse_background, parse_color, parse_style, Background, Color, Style};

verus! {

/// A segment of the text form that has no `=`; it holds the segment.
#[derive(Debug)]
pub struct SegmentError {
    pub segment: String,
}

/// The slot a code goes to by its first character: 0 style, 1 foreground,
/// 2 background, 3 none.
pub open spec fn slot_of(p: Seq<char>) -> int {
    if p.len() == 0 {
        3
    } else if p[0] == '0' {
        0
    } else if p[0] == '3' || p[0] == '9' {
        1
    } else if p[0] == '4' || p[0] == '1' {
        2
    } else {
        3
    }
}

/// A value cut at its first two `;`, into at most three parts.
pub open spec fn value_parts(v: Seq<char>) -> Seq<Seq<char>> {
    match split_once(v, ';') {
        None => seq![v],
        Some((a, r)) => match split_once(r, ';') {
            None => seq![a, r],
            Some((b, c)) => seq![a, b, c],
        },
    }
}

/// Three optional code texts: style, foreground, background.
pub type Slots = (Option<Seq<char>>, Option<Seq<char>>, Option<Seq<char>>);

/// Each part put in its slot; a later part replaces an earlier one.
pub open spec fn classify(parts: Seq<Seq<char>>) -> Slots
    decreases parts.len(),
{
    if parts.len() == 0 {
        (None, None, None)
    } else {
        let t = classify(parts.drop_last());
        let p = parts.last();
        let k = slot_of(p);
        if k == 0 {
            (Some(p), t.1, t.2)
        } else if k == 1 {
            (t.0, Some(p), t.2)
        } else if k == 2 {
            (t.0, t.1, Some(p))
        } else {
            t
        }
    }
}

/// The codes read from the slots; a slot that reads as nothing is unset, and
/// a style slot of exactly `38` is unset too.
pub open spec fn slot_codes(s: Slots) -> Codes {
    (
        match s.0 {
            Some(x) => if x == seq!['3', '8'] {
                None
            } else {
                parse_style(x)
            },
            None => None,
        },
        match s.1 {
            Some(x) => parse_color(x),
            None => None,
        },
        match s.2 {
            Some(x) => parse_background(x),
            None => None,
        },
    )
}

/// The table after one `key=value` segment: an existing rule gets the codes,
/// a new key gets an extension rule of rank one past the table's size.
pub open spec fn apply_segment(e: Seq<Entry>, seg: Seq<char>) -> Seq<Entry> {
    match split_once(seg, '=') {
        None => e,
        Some((k, v)) => {
            let c = slot_codes(classify(value_parts(v)));
            if has_key(e, k) {
                with_codes(e, key_pos(e, k), c.0, c.1, c.2)
            } else {
                insert_entry(
                    e,
                    k,
                    ItemView {
                        style: c.0,
                        color: c.1,
                        bg: c.2,
                        description: extension_description(k),
                        order: e.len() as int + 1,
                    },
                )
            }
        },
    }
}

/// The table after the segments in turn; empty segments are skipped.
pub open spec fn apply_all(e: Seq<Entry>, segs: Seq<Seq<char>>) -> Seq<Entry>
    decreases segs.len(),
{
    if segs.len() == 0 {
        e
    } else {
        let e1 = apply_all(e, segs.drop_last());
        if segs.last().len() == 0 {
            e1
        } else {
            apply_segment(e1, segs.last())
        }
    }
}

/// Whether every non-empty segment has an `=`.
pub open spec fn segments_ok(segs: Seq<Seq<char>>) -> bool {
    forall|i: int| 0 <= i < segs.len() && segs[i].len() > 0 ==> split_once(segs[i], '=') is Some
}

/// The text form of one rule: `key=codes`.
pub open spec fn entry_text(x: Entry) -> Seq<char> {
    x.0 + seq!['='] + code_text(x.1)
}

/// The text form of a table: each rule's text, in rank order, joined by `:`.
pub open spec fn serialized(e: Seq<Entry>) -> Seq<char> {
    join(e.map_values(|x: Entry| entry_text(x)), seq![':'])
}

/// The view of an optional text.
pub open spec fn opt_view(o: Option<&str>) -> Option<Seq<char>> {
    match o {
        Some(s) => Some(s@),
        None => None,
    }
}

/// Puts `p` in its slot.
fn place<'a>(
    slots: (Option<&'a str>, Option<&'a str>, Option<&'a str>),
    p: &'a str,
) -> (r: (Option<&'a str>, Option<&'a str>, Option<&'a str>))
    ensures
        ({
            let k = slot_of(p@);
            let t = (opt_view(slots.0), opt_view(slots.1), opt_view(slots.2));
            (opt_view(r.0), opt_view(r.1), opt_view(r.2)) == if k == 0 {
                (Some(p@), t.1, t.2)
            } else if k == 1 {
                (t.0, Some(p@), t.2)
            } else if k == 2 {
                (t.0, t.1, Some(p@))
            } else {
                t
            }
        }),
{
    if p.unicode_len() == 0 {
        return slots;
    }
    let c = p.get_char(0);
    if c == '0' {
        (Some(p), slots.1, slots.2)
    } else if c == '3' || c == '9' {
        (slots.0, Some(p), slots.2)
    } else if c == '4' || c == '1' {
        (slots.0, slots.1, Some(p))
    } else {
        slots
    }
}

/// Cuts a rule's value into its style, foreground and background codes.
pub fn parse_values(s: &str) -> (r: (Option<&str>, Option<&str>, Option<&str>))
    ensures
        (opt_view(r.0), opt_view(r.1), opt_view(r.2)) == classify(value_parts(s@)),
{
    let none = (None, None, None);
    proof {
        reveal_with_fuel(classify, 4);
    }
    match cut_once(s, ';') {
        None => {
            let ghost parts = seq![s@];
            assert(parts.drop_last() =~= Seq::<Seq<char>>::empty());
            place(none, s)
        },
        Some((a, rest)) => match cut_once(rest, ';') {
            None => {
                let ghost parts = seq![a@, rest@];
                assert(parts.drop_last() =~= seq![a@]);
                assert(parts.drop_last().drop_last() =~= Seq::<Seq<char>>::empty());
                place(place(none, a), rest)
            },
            Some((b, c)) => {
                let ghost parts = seq![a@, b@, c@];
                assert(parts.drop_last() =~= seq![a@, b@]);
                assert(parts.drop_last().drop_last() =~= seq![a@]);
                assert(parts.drop_last().drop_last().drop_last() =~= Seq::<Seq<char>>::empty());
                place(place(place(none, a), b), c)
            },
        },
    }
}

/// The codes that a rule's value text reads as.
fn read_codes(v: &str) -> (r: Codes)
    ensures
        r == slot_codes(classify(value_parts(v@))),
{
    let (st, fg, bg) = parse_values(v);
    let style = match st {
        Some(x) => {
            proof {
                reveal_strlit("38");
            }
            if same_text(x, "38") {
                None
            } else {
                match Style::from_str(x) {
                    Ok(s) => Some(s),
                    Err(_) => None,
                }
            }
        },
        None => None,
    };
    let color = match fg {
        Some(x) => match Color::from_str(x) {
            Ok(c) => Some(c),
            Err(_) => None,
        },
        None => None,
    };
    let bg = match bg {
        Some(x) => match Background::from_str(x) {
            Ok(b) => Some(b),
            Err(_) => None,
        },
        None => None,
    };
    (style, color, bg)
}

proof fn lemma_split_all_bound(s: Seq<char>, c: char)
    ensures
        split_all(s, c).len() <= s.len() + 1,
    decreases s.len(),
{
    if s.len() > 0 {
        lemma_split_all_bound(s.drop_last(), c);
        lemma_split_all_len(s.drop_last(), c);
        let p = split_all(s.drop_last(), c);
        assert(split_all(s, c).len() <= p.len() + 1);
    }
}

/// The first non-empty segment of `pieces` that has no `=`, if any.
fn first_bad_segment(pieces: &Vec<&str>) -> (r: Option<usize>)
    ensures
        match r {
            Some(i) => i < pieces@.len() && pieces@[i as int]@.len() > 0 && split_once(
                pieces@[i as int]@,
                '=',
            ) is None,
            None => segments_ok(pieces@.map_values(|p: &str| p@)),
        },
{
    let mut i: usize = 0;
    while i < pieces.len()
        invariant
            i <= pieces.len(),
            forall|j: int|
                0 <= j < i && pieces@[j]@.len() > 0 ==> split_once(pieces@[j]@, '=') is Some,
        decreases pieces.len() - i,
    {
        let p = pieces[i];
        if p.unicode_len() > 0 && cut_once(p, '=').is_none() {
            return Some(i);
        }
        i = i + 1;
    }
    None
}

impl ColorMap {
    /// Applies one `key=value` segment.
    fn apply_segment(&mut self, key: &str, value: &str)
        requires
            table_wf(old(self)@),
            old(self)@.len() < usize::MAX,
        ensures
            table_wf(final(self)@),
            final(self)@.len() <= old(self)@.len() + 1,
            forall|seg: Seq<char>|
                split_once(seg, '=') == Some((key@, value@)) ==> final(self)@ == apply_segment(
                    old(self)@,
                    seg,
                ),
    {
        let (style, color, bg) = read_codes(value);
        match self.position(key) {
            Some(p) => {
                self.update_codes(p, style, color, bg);
                assert(self@.len() == old(self)@.len());
            },
            None => {
                let mut description = String::from_str("file extension: ");
                description.append(key);
                let order = self.len() + 1;
                let item = LsItem { style, color, bg, description, order };
                self.insert_item(key.to_string(), item);
                assert(self@.len() == old(self)@.len() + 1);
            },
        }
    }

    /// Reads the text form `key=codes:key=codes:...` into the table: a known
    /// key gets the codes, a new one is added as an extension rule. If a
    /// non-empty segment has no `=`, nothing is changed.
    pub fn parse_env_string(&mut self, env_string: String) -> (r: Result<(), SegmentError>)
        requires
            table_wf(old(self)@),
            old(self)@.len() + env_string@.len() < usize::MAX,
        ensures
            table_wf(final(self)@),
            r is Ok <==> segments_ok(split_all(env_string@, ':')),
            r is Ok ==> final(self)@ == apply_all(old(self)@, split_all(env_string@, ':')),
            r is Err ==> final(self)@ == old(self)@,
    {
        let pieces = cut_all(env_string.as_str(), ':');
        let ghost segs = pieces@.map_values(|p: &str| p@);
        proof {
            lemma_split_all_bound(env_string@, ':');
        }
        if let Some(i) = first_bad_segment(&pieces) {
            assert(segs[i as int] == pieces@[i as int]@);
            return Err(SegmentError { segment: pieces[i].to_string() });
        }
        let ghost e0 = self@;
        let mut i: usize = 0;
        while i < pieces.len()
            invariant
                i <= pieces.len(),
                segs == pieces@.map_values(|p: &str| p@),
                segs.len() <= env_string@.len() + 1,
                segments_ok(segs),
                e0.len() + env_string@.len() < usize::MAX,
                table_wf(self@),
                self@.len() <= e0.len() + i,
                self@ == apply_all(e0, segs.take(i as int)),
            decreases pieces.len() - i,
        {
            let p = pieces[i];
            assert(segs.take(i + 1).drop_last() =~= segs.take(i as int));
            assert(segs.take(i + 1).last() == p@);
            if p.unicode_len() > 0 {
                match cut_once(p, '=') {
                    Some((key, value)) => {
                        self.apply_segment(key, value);
                    },
                    None => {
                        assert(segs[i as int] == p@);
                    },
                }
            }
            i = i + 1;
        }
        assert(segs.take(pieces.len() as int) =~= segs);
        Ok(())
    }
}

/// The text form of the table: `key=codes` for each rule in rank order,
/// joined by `:`.
pub fn create_ls_string(color_decs: &ColorMap) -> (r: String)
    ensures
        r@ == serialized(color_decs@),
{
    let mut parts: Vec<String> = Vec::new();
    let mut i: usize = 0;
    let n = color_decs.len();
    while i < n
        invariant
            i <= n,
            n == color_decs@.len(),
            parts@.map_values(|p: String| p@) == color_decs@.take(i as int).map_values(
                |x: Entry| entry_text(x),
            ),
        decreases n - i,
    {
        let (key, item) = color_decs.entry(i);
        let mut t = key.clone();
        let eq = "=";
        proof {
            reveal_strlit("=");
            assert(eq@ =~= seq!['=']);
        }
        t.append(eq);
        t.append(item.to_string().as_str());
        assert(t@ == entry_text(color_decs@[i as int]));
        let ghost before = parts@.map_values(|p: String| p@);
        parts.push(t);
        assert(parts@.map_values(|p: String| p@) =~= before.push(t@));
        assert(color_decs@.take(i + 1) =~= color_decs@.take(i as int).push(color_decs@[i as int]));
        assert(parts@.map_values(|p: String| p@) =~= color_decs@.take(i + 1).map_values(
            |x: Entry| entry_text(x),
        ));
        i = i + 1;
    }
    assert(color_decs@.take(n as int) =~= color_decs@);
    let sep = ":";
    proof {
        reveal_strlit(":");
        assert(sep@ =~= seq![':']);
    }
    join_all(&parts, sep)
}

} // verus!
