use vstd::prelude::*;

use crate::codec::{
    apply_all, apply_segment, classify, entry_text, segments_ok, serialized, slot_codes,
    value_parts,
};
use crate::table::{
    insert_entry, lemma_insertion_point, with_codes, ItemView, builtin_key, code_parts, code_text, default_entries, has_key, insertion_point, key_pos,
    table_wf, Entry,
};
use crate::commands::field_codes;
use crate::text::{
    is_extension_key, join, lemma_split_all_len, lemma_split_once_at, lemma_split_once_none,
    split_all, split_once,
};
use crate::types::{
    Background, Color, Style, background_code, color_code, is_named_background, is_named_color,
    lemma_background_round_trip, lemma_color_round_trip, lemma_style_round_trip, style_code,
};

verus! {

/// Whether no character of `s` is `c`.
pub open spec fn has_no(s: Seq<char>, c: char) -> bool {
    forall|j: int| 0 <= j < s.len() ==> s[j] != c
}

/// A table as a session makes it: the built-in rules first, in rank order,
/// then extension rules; no key holds `:` or `=`, and no colour is of the
/// extended palette.
pub open spec fn session_table(e: Seq<Entry>) -> bool {
    &&& table_wf(e)
    &&& e.len() >= 20
    &&& forall|i: int| 0 <= i < 20 ==> e[i].0 == builtin_key(i) && e[i].1.order == i + 1
    &&& forall|i: int| 20 <= i < e.len() ==> is_extension_key(#[trigger] e[i].0)
    &&& forall|i: int| 0 <= i < e.len() ==> has_no(#[trigger] e[i].0, ':') && has_no(e[i].0, '=')
    &&& forall|i: int|
        0 <= i < e.len() ==> match (#[trigger] e[i]).1.color {
            Some(c) => is_named_color(c),
            None => true,
        } && match e[i].1.bg {
            Some(b) => is_named_background(b),
            None => true,
        }
}

proof fn lemma_split_all_concat(a: Seq<char>, b: Seq<char>, c: char)
    ensures
        split_all(a + seq![c] + b, c) == split_all(a, c) + split_all(b, c),
    decreases b.len(),
{
    let s = a + seq![c] + b;
    if b.len() == 0 {
        assert(s.drop_last() =~= a);
        assert(split_all(b, c) == seq![Seq::<char>::empty()]);
        assert(split_all(s, c) =~= split_all(a, c) + split_all(b, c));
    } else {
        lemma_split_all_concat(a, b.drop_last(), c);
        assert(s.drop_last() =~= a + seq![c] + b.drop_last());
        lemma_split_all_len(b.drop_last(), c);
        let p = split_all(a, c);
        let q = split_all(b.drop_last(), c);
        if b.last() == c {
            assert(split_all(s, c) =~= p + q.push(Seq::empty()));
        } else {
            assert(split_all(s, c) =~= p + q.update(q.len() - 1, q.last().push(b.last())));
        }
    }
}

proof fn lemma_split_all_single(b: Seq<char>, c: char)
    requires
        has_no(b, c),
    ensures
        split_all(b, c) == seq![b],
    decreases b.len(),
{
    if b.len() > 0 {
        assert(b.last() == b[b.len() - 1]);
        assert(b.last() != c);
        lemma_split_all_single(b.drop_last(), c);
        assert(b.drop_last().push(b.last()) =~= b);
        assert(seq![b.drop_last()].update(0, b) =~= seq![b]);
    } else {
        assert(b =~= Seq::<char>::empty());
    }
}

proof fn lemma_split_join(parts: Seq<Seq<char>>, c: char)
    requires
        parts.len() >= 1,
        forall|i: int| 0 <= i < parts.len() ==> has_no(#[trigger] parts[i], c),
    ensures
        split_all(join(parts, seq![c]), c) == parts,
    decreases parts.len(),
{
    if parts.len() == 1 {
        lemma_split_all_single(parts[0], c);
        assert(seq![parts[0]] =~= parts);
    } else {
        let init = parts.drop_last();
        assert(forall|i: int| 0 <= i < init.len() ==> init[i] == parts[i]);
        lemma_split_join(init, c);
        assert(has_no(parts[parts.len() - 1], c));
        lemma_split_all_single(parts.last(), c);
        lemma_split_all_concat(join(init, seq![c]), parts.last(), c);
        assert(init + seq![parts.last()] =~= parts);
    }
}

proof fn lemma_join_has_no(parts: Seq<Seq<char>>, sep: Seq<char>, c: char)
    requires
        has_no(sep, c),
        forall|i: int| 0 <= i < parts.len() ==> has_no(#[trigger] parts[i], c),
    ensures
        has_no(join(parts, sep), c),
    decreases parts.len(),
{
    if parts.len() > 1 {
        let init = parts.drop_last();
        assert(forall|i: int| 0 <= i < init.len() ==> init[i] == parts[i]);
        lemma_join_has_no(init, sep, c);
        assert(has_no(parts[parts.len() - 1], c));
    } else if parts.len() == 1 {
        assert(has_no(parts[0], c));
    }
}

proof fn lemma_split_once_concat(k: Seq<char>, v: Seq<char>, c: char)
    requires
        has_no(k, c),
    ensures
        split_once(k + seq![c] + v, c) == Some((k, v)),
{
    let s = k + seq![c] + v;
    lemma_split_once_at(s, c, k.len() as int);
    assert(s.take(k.len() as int) =~= k);
    assert(s.skip(k.len() as int + 1) =~= v);
}

/// The codes set on a rule, as the text form carries them.
pub open spec fn codes_of(x: Entry) -> (
    Option<crate::types::Style>,
    Option<crate::types::Color>,
    Option<crate::types::Background>,
) {
    (x.1.style, x.1.color, x.1.bg)
}

proof fn lemma_code_text_chars(x: Entry)
    ensures
        has_no(code_text(x.1), ':'),
        has_no(code_text(x.1), '='),
{
    let p = code_parts(x.1.style, x.1.color, x.1.bg);
    assert forall|i: int| 0 <= i < p.len() implies has_no(#[trigger] p[i], ':') && has_no(
        p[i],
        '=',
    ) by {}
    lemma_join_has_no(p, seq![';'], ':');
    lemma_join_has_no(p, seq![';'], '=');
}

proof fn lemma_codes_round_trip(x: Entry)
    requires
        match x.1.color {
            Some(c) => is_named_color(c),
            None => true,
        },
        match x.1.bg {
            Some(b) => is_named_background(b),
            None => true,
        },
    ensures
        slot_codes(classify(value_parts(code_text(x.1)))) == codes_of(x),
{
    let p = code_parts(x.1.style, x.1.color, x.1.bg);
    assert forall|i: int| 0 <= i < p.len() implies has_no(#[trigger] p[i], ';') by {}
    if let Some(s) = x.1.style {
        lemma_style_round_trip(s);
    }
    if let Some(c) = x.1.color {
        lemma_color_round_trip(c);
    }
    if let Some(b) = x.1.bg {
        lemma_background_round_trip(b);
    }
    reveal_with_fuel(classify, 4);
    if p.len() == 0 {
        assert(code_text(x.1) =~= Seq::<char>::empty());
        assert(value_parts(code_text(x.1)) == seq![Seq::<char>::empty()]);
        assert(seq![Seq::<char>::empty()].drop_last() =~= Seq::<Seq<char>>::empty());
    } else if p.len() == 1 {
        lemma_split_once_none(p[0], ';');
        assert(value_parts(code_text(x.1)) == seq![p[0]]);
        assert(seq![p[0]].drop_last() =~= Seq::<Seq<char>>::empty());
    } else if p.len() == 2 {
        assert(p.drop_last() =~= seq![p[0]]);
        assert(join(p.drop_last(), seq![';']) == p[0]);
        assert(code_text(x.1) == p[0] + seq![';'] + p[1]);
        assert(has_no(p[0], ';') && has_no(p[1], ';'));
        lemma_split_once_concat(p[0], p[1], ';');
        lemma_split_once_none(p[1], ';');
        assert(value_parts(code_text(x.1)) == seq![p[0], p[1]]);
        assert(seq![p[0], p[1]].drop_last() =~= seq![p[0]]);
        assert(seq![p[0]].drop_last() =~= Seq::<Seq<char>>::empty());
    } else {
        assert(p.drop_last().drop_last() =~= seq![p[0]]);
        assert(p.drop_last() =~= seq![p[0], p[1]]);
        assert(join(p.drop_last().drop_last(), seq![';']) == p[0]);
        assert(join(p.drop_last(), seq![';']) == p[0] + seq![';'] + p[1]);
        assert(code_text(x.1) == p[0] + seq![';'] + p[1] + seq![';'] + p[2]);
        assert(has_no(p[0], ';') && has_no(p[1], ';') && has_no(p[2], ';'));
        assert(p[1] + seq![';'] + p[2] == (p[1] + seq![';']) + p[2]);
        lemma_split_once_concat(p[0], p[1] + seq![';'] + p[2], ';');
        lemma_split_once_concat(p[1], p[2], ';');
        lemma_split_once_none(p[2], ';');
        assert(p[0] + seq![';'] + p[1] + seq![';'] + p[2] =~= p[0] + seq![';'] + (p[1] + seq![';']
            + p[2]));
        assert(value_parts(code_text(x.1)) == seq![p[0], p[1], p[2]]);
        assert(seq![p[0], p[1], p[2]].drop_last() =~= seq![p[0], p[1]]);
        assert(seq![p[0], p[1]].drop_last() =~= seq![p[0]]);
        assert(seq![p[0]].drop_last() =~= Seq::<Seq<char>>::empty());
    }
}

/// What the table read so far shares with `e`: after `i` segments it has
/// `e`'s first keys with rank one past their position, and `e`'s codes on
/// the first `i` of them.
pub open spec fn read_prefix(s: Seq<Entry>, e: Seq<Entry>, i: int) -> bool {
    &&& s.len() == if i <= 20 {
        20
    } else {
        i
    }
    &&& forall|j: int| 0 <= j < s.len() ==> (#[trigger] s[j]).0 == e[j].0 && s[j].1.order == j + 1
    &&& forall|j: int| 0 <= j < i ==> codes_of(#[trigger] s[j]) == codes_of(e[j])
}

proof fn lemma_read_step(s: Seq<Entry>, e: Seq<Entry>, i: int)
    requires
        session_table(e),
        0 <= i < e.len(),
        read_prefix(s, e, i),
    ensures
        read_prefix(apply_segment(s, entry_text(e[i])), e, i + 1),
{
    let k = e[i].0;
    let seg = entry_text(e[i]);
    assert(has_no(k, '='));
    lemma_split_once_concat(k, code_text(e[i].1), '=');
    lemma_codes_round_trip(e[i]);
    let c = slot_codes(classify(value_parts(code_text(e[i].1))));
    if i < 20 {
        assert(s[i].0 == k);
        assert(has_key(s, k));
        let p = key_pos(s, k);
        assert(0 <= p < s.len() && s[p].0 == k);
        assert(p == i) by {
            if p != i {
                assert(e[p].0 == s[p].0);
                if p < i {
                    assert(e[p].0 != e[i].0);
                } else {
                    assert(e[i].0 != e[p].0);
                }
            }
        }
        let r = apply_segment(s, seg);
        assert(r == s.update(i, (s[i].0, crate::table::ItemView { style: c.0, color: c.1, bg: c.2, ..s[i].1 })));
        assert(read_prefix(r, e, i + 1));
    } else {
        assert(!has_key(s, k)) by {
            if has_key(s, k) {
                let j = choose|j: int| 0 <= j < s.len() && s[j].0 == k;
                assert(s[j].0 == e[j].0);
                assert(e[j].0 != e[i].0);
            }
        }
        assert(s.last().1.order == s.len());
        assert(insertion_point(s, s.len() as int + 1) == s.len());
        let r = apply_segment(s, seg);
        assert(read_prefix(r, e, i + 1));
    }
}

proof fn lemma_read_prefix(e: Seq<Entry>, i: int)
    requires
        session_table(e),
        0 <= i <= e.len(),
    ensures
        read_prefix(
            apply_all(default_entries(), e.map_values(|x: Entry| entry_text(x)).take(i)),
            e,
            i,
        ),
    decreases i,
{
    let parts = e.map_values(|x: Entry| entry_text(x));
    let d = default_entries();
    if i == 0 {
        assert(parts.take(0) =~= Seq::<Seq<char>>::empty());
        assert(read_prefix(d, e, 0));
    } else {
        lemma_read_prefix(e, i - 1);
        assert(parts.take(i).drop_last() =~= parts.take(i - 1));
        assert(parts.take(i).last() == entry_text(e[i - 1]));
        assert(entry_text(e[i - 1]).len() > 0);
        lemma_read_step(apply_all(d, parts.take(i - 1)), e, i - 1);
    }
}

/// Reading a session's table back from its text form, into a fresh table,
/// gives the same text form again; and that reading never fails.
pub proof fn lemma_serialize_round_trip(e: Seq<Entry>)
    requires
        session_table(e),
    ensures
        segments_ok(split_all(serialized(e), ':')),
        serialized(apply_all(default_entries(), split_all(serialized(e), ':'))) == serialized(e),
{
    let parts = e.map_values(|x: Entry| entry_text(x));
    assert forall|i: int| 0 <= i < parts.len() implies has_no(#[trigger] parts[i], ':') by {
        lemma_code_text_chars(e[i]);
        assert(has_no(e[i].0, ':'));
        assert(parts[i] == e[i].0 + seq!['='] + code_text(e[i].1));
    }
    lemma_split_join(parts, ':');
    assert(split_all(serialized(e), ':') == parts);
    assert forall|i: int| 0 <= i < parts.len() && parts[i].len() > 0 implies split_once(
        #[trigger] parts[i],
        '=',
    ) is Some by {
        assert(has_no(e[i].0, '='));
        lemma_split_once_concat(e[i].0, code_text(e[i].1), '=');
    }
    let d = default_entries();
    assert(read_prefix(d, e, 0));
    lemma_read_prefix(e, e.len() as int);
    assert(parts.take(e.len() as int) =~= parts);
    let s = apply_all(d, parts);
    assert(s.map_values(|x: Entry| entry_text(x)) =~= parts);
}

/// Whether an optional foreground colour is unset or named.
pub open spec fn named_color(c: Option<Color>) -> bool {
    match c {
        Some(v) => is_named_color(v),
        None => true,
    }
}

/// Whether an optional background colour is unset or named.
pub open spec fn named_background(b: Option<Background>) -> bool {
    match b {
        Some(v) => is_named_background(v),
        None => true,
    }
}

/// The table a session starts from is a session table.
pub proof fn lemma_default_is_session_table()
    ensures
        session_table(default_entries()),
{
    let e = default_entries();
    assert forall|i: int, j: int| 0 <= i < j < e.len() implies e[i].0 != e[j].0 by {
        assert(e[i].0[0] != e[j].0[0] || e[i].0[1] != e[j].0[1]);
    }
}

/// Replacing the codes of a rule of a session table with unset or named
/// codes gives a session table.
pub proof fn lemma_codes_keep_session_table(
    e: Seq<Entry>,
    p: int,
    style: Option<Style>,
    color: Option<Color>,
    bg: Option<Background>,
)
    requires
        session_table(e),
        0 <= p < e.len(),
        named_color(color),
        named_background(bg),
    ensures
        session_table(with_codes(e, p, style, color, bg)),
{
    let r = with_codes(e, p, style, color, bg);
    assert forall|i: int| 0 <= i < r.len() implies has_no(#[trigger] r[i].0, ':') && has_no(
        r[i].0,
        '=',
    ) by {
        assert(r[i].0 == e[i].0);
    }
}

/// Deleting an extension rule of a session table gives a session table.
pub proof fn lemma_remove_keeps_session_table(e: Seq<Entry>, p: int)
    requires
        session_table(e),
        0 <= p < e.len(),
        is_extension_key(e[p].0),
    ensures
        session_table(e.remove(p)),
{
    if p < 20 {
        assert(e[p].0 == builtin_key(p));
    }
    let r = e.remove(p);
    assert forall|i: int| 0 <= i < r.len() implies has_no(#[trigger] r[i].0, ':') && has_no(
        r[i].0,
        '=',
    ) by {
        if i < p {
            assert(r[i] == e[i]);
        } else {
            assert(r[i] == e[i + 1]);
        }
    }
    assert forall|i: int| 20 <= i < r.len() implies is_extension_key(#[trigger] r[i].0) by {
        if i < p {
            assert(r[i] == e[i]);
        } else {
            assert(r[i] == e[i + 1]);
        }
    }
}

/// Adding an extension rule, of rank one past the table's size, whose key
/// holds no `:` or `=`, to a session table gives a session table.
pub proof fn lemma_add_keeps_session_table(e: Seq<Entry>, k: Seq<char>, item: ItemView)
    requires
        session_table(e),
        !has_key(e, k),
        is_extension_key(k),
        has_no(k, ':'),
        has_no(k, '='),
        item.order == e.len() + 1,
        named_color(item.color),
        named_background(item.bg),
    ensures
        session_table(insert_entry(e, k, item)),
{
    lemma_insertion_point(e, item.order);
    let q = insertion_point(e, item.order);
    assert(q >= 20) by {
        if q < 20 {
            assert(e[q].0 == builtin_key(q) && e[q].1.order == q + 1);
            assert(e[q].1.order > item.order);
        }
    }
    let r = insert_entry(e, k, item);
    assert(r == e.insert(q, (k, item)));
    assert forall|i: int| 0 <= i < r.len() implies #[trigger] r[i] == if i < q {
        e[i]
    } else if i == q {
        (k, item)
    } else {
        e[i - 1]
    } by {}
    assert forall|i: int, j: int| 0 <= i < j < r.len() implies r[i].0 != r[j].0 by {
        if i == q {
            assert(r[j].0 == e[j - 1].0);
        } else if j == q {
            assert(r[i].0 == e[i].0);
        }
    }
    assert forall|i: int, j: int| 0 <= i <= j < r.len() implies r[i].1.order <= r[j].1.order by {
        if i < q && j > q {
            assert(e[i].1.order <= e[j - 1].1.order);
        }
        if i < q && j == q && q > 0 {
            assert(e[i].1.order <= e[q - 1].1.order);
        }
        if i == q && j > q {
            assert(e[j - 1].1.order > item.order);
        }
    }
}

/// The codes that a command reads are unset or named.
pub proof fn lemma_field_codes_named(what: Seq<char>, value: Seq<char>)
    ensures
        field_codes(what, value) matches Some(c) ==> named_color(c.1) && named_background(c.2),
{
}

} // verus!
