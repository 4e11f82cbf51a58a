use vstd::prelude::*;
use vstd::string::*;

use crate::text::{is_extension_key, join, join_all};
use crate::types::{background_code, color_code, style_code, Background, Color, Style};

verus! {

/// One rule: up to three codes, a description and a display rank.
#[derive(Debug)]
pub struct LsItem {
    pub style: Option<Style>,
    pub color: Option<Color>,
    pub bg: Option<Background>,
    pub description: String,
    pub order: usize,
}

/// What a rule holds, as plain values.
pub struct ItemView {
    pub style: Option<Style>,
    pub color: Option<Color>,
    pub bg: Option<Background>,
    pub description: Seq<char>,
    pub order: int,
}

impl View for LsItem {
    type V = ItemView;

    open spec fn view(&self) -> ItemView {
        ItemView {
            style: self.style,
            color: self.color,
            bg: self.bg,
            description: self.description@,
            order: self.order as int,
        }
    }
}

/// The codes that are set, in the order style, foreground, background.
pub open spec fn code_parts(
    style: Option<Style>,
    color: Option<Color>,
    bg: Option<Background>,
) -> Seq<Seq<char>> {
    let a = match style {
        Some(s) => seq![style_code(s)],
        None => Seq::empty(),
    };
    let b = match color {
        Some(c) => seq![color_code(c)],
        None => Seq::empty(),
    };
    let c = match bg {
        Some(g) => seq![background_code(g)],
        None => Seq::empty(),
    };
    a + b + c
}

/// The code text of a rule: the codes that are set, joined by `;`.
pub open spec fn code_text(i: ItemView) -> Seq<char> {
    join(code_parts(i.style, i.color, i.bg), seq![';'])
}

/// `s` right-aligned in a field of `w` characters.
pub open spec fn pad_left(s: Seq<char>, w: int) -> Seq<char> {
    if s.len() < w {
        Seq::new((w - s.len()) as nat, |_i: int| ' ') + s
    } else {
        s
    }
}

/// A code as the value column shows it: `--` where unset.
pub open spec fn shown(c: Option<Seq<char>>) -> Seq<char> {
    match c {
        Some(s) => s,
        None => seq!['-', '-'],
    }
}

/// The value column of a rule: style, then foreground and background each
/// right-aligned in seven characters, separated by `;`.
pub open spec fn value_column(i: ItemView) -> Seq<char> {
    let s = shown(
        match i.style {
            Some(v) => Some(style_code(v)),
            None => None,
        },
    );
    let f = shown(
        match i.color {
            Some(v) => Some(color_code(v)),
            None => None,
        },
    );
    let b = shown(
        match i.bg {
            Some(v) => Some(background_code(v)),
            None => None,
        },
    );
    s + seq![';'] + pad_left(f, 7) + seq![';'] + pad_left(b, 7)
}

/// `text` wrapped in the terminal escapes that select the codes `id`.
pub open spec fn colored(id: Seq<char>, text: Seq<char>) -> Seq<char> {
    seq!['\x1b', '['] + id + seq!['m'] + text + seq!['\x1b', '[', '0', 'm']
}

/// `k` spaces.
pub fn spaces(k: usize) -> (r: String)
    ensures
        r@ == Seq::new(k as nat, |_i: int| ' '),
{
    let mut r = String::new();
    let mut j: usize = 0;
    while j < k
        invariant
            j <= k,
            r@ == Seq::new(j as nat, |_i: int| ' '),
        decreases k - j,
    {
        r.append(" ");
        proof {
            reveal_strlit(" ");
        }
        assert(r@ =~= Seq::new((j + 1) as nat, |_i: int| ' '));
        j = j + 1;
    }
    r
}

/// Right-aligns `s` in a field of `w` characters.
pub fn pad_to(s: &str, w: usize) -> (r: String)
    ensures
        r@ == pad_left(s@, w as int),
{
    let n = s.unicode_len();
    let mut r = if n < w {
        spaces(w - n)
    } else {
        String::new()
    };
    r.append(s);
    assert(n >= w ==> r@ =~= s@);
    r
}

impl LsItem {
    /// The code text of this rule.
    pub fn make_color_id(&self) -> (r: String)
        ensures
            r@ == code_text(self@),
    {
        let mut values: Vec<String> = Vec::new();
        if let Some(style) = &self.style {
            values.push(style.to_string());
        }
        if let Some(color) = &self.color {
            values.push(color.to_string());
        }
        if let Some(bg) = &self.bg {
            values.push(bg.to_string());
        }
        assert(values@.map_values(|p: String| p@) =~= code_parts(self.style, self.color, self.bg));
        let sep = ";";
        proof {
            reveal_strlit(";");
            assert(sep@ =~= seq![';']);
        }
        join_all(&values, sep)
    }

    /// The code text of this rule, as it stands in the serialized table.
    pub fn to_string(&self) -> (r: String)
        ensures
            r@ == code_text(self@),
    {
        self.make_color_id()
    }

    /// The value column that the preview shows for this rule.
    pub fn display_colors_values(&self) -> (r: String)
        ensures
            r@ == value_column(self@),
    {
        let style = if let Some(style) = &self.style {
            style.to_string()
        } else {
            String::from_str("--")
        };
        let fg = if let Some(fg) = &self.color {
            fg.to_string()
        } else {
            String::from_str("--")
        };
        let bg = if let Some(bg) = &self.bg {
            bg.to_string()
        } else {
            String::from_str("--")
        };
        proof {
            reveal_strlit("--");
            assert("--"@ =~= seq!['-', '-']);
            reveal_strlit(";");
        }
        let mut r = style;
        r.append(";");
        r.append(pad_to(fg.as_str(), 7).as_str());
        r.append(";");
        r.append(pad_to(bg.as_str(), 7).as_str());
        r
    }

    /// `s` shown in this rule's colours.
    pub fn color_helper(&self, s: &str) -> (r: String)
        ensures
            r@ == colored(code_text(self@), s@),
    {
        let mut r = String::from_str("\x1b[");
        r.append(self.make_color_id().as_str());
        r.append("m");
        r.append(s);
        r.append("\x1b[0m");
        proof {
            reveal_strlit("\x1b[");
            reveal_strlit("m");
            reveal_strlit("\x1b[0m");
        }
        r
    }

    /// This rule's description shown in its colours.
    pub fn _preview(&self) -> (r: String)
        ensures
            r@ == colored(code_text(self@), self.description@),
    {
        self.color_helper(self.description.as_str())
    }
}

/// A table entry: a rule key and what its rule holds.
pub type Entry = (Seq<char>, ItemView);

/// Whether some entry of `e` has the key `k`.
pub open spec fn has_key(e: Seq<Entry>, k: Seq<char>) -> bool {
    exists|i: int| 0 <= i < e.len() && e[i].0 == k
}

/// The position of the entry with key `k`.
pub open spec fn key_pos(e: Seq<Entry>, k: Seq<char>) -> int {
    choose|i: int| 0 <= i < e.len() && e[i].0 == k
}

/// A table's well-formedness: keys are unique and ranks never decrease.
pub open spec fn table_wf(e: Seq<Entry>) -> bool {
    &&& forall|i: int, j: int| 0 <= i < j < e.len() ==> e[i].0 != e[j].0
    &&& forall|i: int, j: int| 0 <= i <= j < e.len() ==> e[i].1.order <= e[j].1.order
}

/// Where an entry of rank `o` goes: after the last entry whose rank is at most `o`.
pub open spec fn insertion_point(e: Seq<Entry>, o: int) -> int
    decreases e.len(),
{
    if e.len() == 0 {
        0
    } else if e.last().1.order <= o {
        e.len() as int
    } else {
        insertion_point(e.drop_last(), o)
    }
}

/// `e` with an entry for `k` added in rank order.
pub open spec fn insert_entry(e: Seq<Entry>, k: Seq<char>, i: ItemView) -> Seq<Entry> {
    e.insert(insertion_point(e, i.order), (k, i))
}

/// The entry at `p` with its three codes replaced.
pub open spec fn with_codes(
    e: Seq<Entry>,
    p: int,
    style: Option<Style>,
    color: Option<Color>,
    bg: Option<Background>,
) -> Seq<Entry> {
    e.update(p, (e[p].0, ItemView { style, color, bg, ..e[p].1 }))
}

/// The description of a rule added for the extension key `k`.
pub open spec fn extension_description(k: Seq<char>) -> Seq<char> {
    "file extension: "@ + k
}

/// The key of the built-in rule of rank `i + 1`.
pub open spec fn builtin_key(i: int) -> Seq<char> {
    if i == 0 {
        seq!['r', 's']
    } else if i == 1 {
        seq!['c', 'a']
    } else if i == 2 {
        seq!['c', 'd']
    } else if i == 3 {
        seq!['d', 'i']
    } else if i == 4 {
        seq!['d', 'o']
    } else if i == 5 {
        seq!['e', 'x']
    } else if i == 6 {
        seq!['f', 'i']
    } else if i == 7 {
        seq!['l', 'n']
    } else if i == 8 {
        seq!['m', 'h']
    } else if i == 9 {
        seq!['m', 'i']
    } else if i == 10 {
        seq!['n', 'o']
    } else if i == 11 {
        seq!['o', 'r']
    } else if i == 12 {
        seq!['o', 'w']
    } else if i == 13 {
        seq!['p', 'i']
    } else if i == 14 {
        seq!['b', 'd']
    } else if i == 15 {
        seq!['s', 'g']
    } else if i == 16 {
        seq!['s', 'o']
    } else if i == 17 {
        seq!['s', 't']
    } else if i == 18 {
        seq!['s', 'u']
    } else {
        seq!['t', 'w']
    }
}

/// The description of the built-in rule of rank `i + 1`.
pub open spec fn builtin_description(i: int) -> Seq<char> {
    if i == 0 {
        "reset to no color"@
    } else if i == 1 {
        "file with capability"@
    } else if i == 2 {
        "character device"@
    } else if i == 3 {
        "directory"@
    } else if i == 4 {
        "door"@
    } else if i == 5 {
        "executable file"@
    } else if i == 6 {
        "regular file"@
    } else if i == 7 {
        "symbolic link"@
    } else if i == 8 {
        "multi-hardlink"@
    } else if i == 9 {
        "missing file"@
    } else if i == 10 {
        "normal non-filename text"@
    } else if i == 11 {
        "orphan symlink"@
    } else if i == 12 {
        "other-writable directory"@
    } else if i == 13 {
        "named pipe, AKA FIFO"@
    } else if i == 14 {
        "block device"@
    } else if i == 15 {
        "set-group-ID"@
    } else if i == 16 {
        "socket"@
    } else if i == 17 {
        "sticky directory"@
    } else if i == 18 {
        "set-user-ID"@
    } else {
        "sticky and other-writable directory"@
    }
}

/// The table that a session starts from: every built-in rule, with no codes.
pub open spec fn default_entries() -> Seq<Entry> {
    Seq::new(
        20,
        |i: int|
            (
                builtin_key(i),
                ItemView {
                    style: None,
                    color: None,
                    bg: None,
                    description: builtin_description(i),
                    order: i + 1,
                },
            ),
    )
}

/// The colour table: rule keys with their rules, kept in rank order.
#[derive(Debug)]
pub struct ColorMap {
    entries: Vec<(String, LsItem)>,
}

impl View for ColorMap {
    type V = Seq<Entry>;

    closed spec fn view(&self) -> Seq<Entry> {
        self.entries@.map_values(|e: (String, LsItem)| (e.0@, e.1@))
    }
}

/// A built-in rule with no codes.
fn builtin(key: &str, description: &str, order: usize) -> (r: (String, LsItem))
    ensures
        r.0@ == key@,
        r.1@ == (ItemView { style: None, color: None, bg: None, description: description@, order: order as int }),
{
    (
        key.to_string(),
        LsItem { style: None, color: None, bg: None, description: description.to_string(), order },
    )
}

impl Default for ColorMap {
    fn default() -> (r: ColorMap)
        ensures
            r@ == default_entries(),
            table_wf(r@),
    {
        let mut entries: Vec<(String, LsItem)> = Vec::new();
        entries.push(builtin("rs", "reset to no color", 1));
        entries.push(builtin("ca", "file with capability", 2));
        entries.push(builtin("cd", "character device", 3));
        entries.push(builtin("di", "directory", 4));
        entries.push(builtin("do", "door", 5));
        entries.push(builtin("ex", "executable file", 6));
        entries.push(builtin("fi", "regular file", 7));
        entries.push(builtin("ln", "symbolic link", 8));
        entries.push(builtin("mh", "multi-hardlink", 9));
        entries.push(builtin("mi", "missing file", 10));
        entries.push(builtin("no", "normal non-filename text", 11));
        entries.push(builtin("or", "orphan symlink", 12));
        entries.push(builtin("ow", "other-writable directory", 13));
        entries.push(builtin("pi", "named pipe, AKA FIFO", 14));
        entries.push(builtin("bd", "block device", 15));
        entries.push(builtin("sg", "set-group-ID", 16));
        entries.push(builtin("so", "socket", 17));
        entries.push(builtin("st", "sticky directory", 18));
        entries.push(builtin("su", "set-user-ID", 19));
        entries.push(builtin("tw", "sticky and other-writable directory", 20));
        proof {
            reveal_strlit("rs");
            assert("rs"@ =~= seq!['r', 's']);
            reveal_strlit("ca");
            assert("ca"@ =~= seq!['c', 'a']);
            reveal_strlit("cd");
            assert("cd"@ =~= seq!['c', 'd']);
            reveal_strlit("di");
            assert("di"@ =~= seq!['d', 'i']);
            reveal_strlit("do");
            assert("do"@ =~= seq!['d', 'o']);
            reveal_strlit("ex");
            assert("ex"@ =~= seq!['e', 'x']);
            reveal_strlit("fi");
            assert("fi"@ =~= seq!['f', 'i']);
            reveal_strlit("ln");
            assert("ln"@ =~= seq!['l', 'n']);
            reveal_strlit("mh");
            assert("mh"@ =~= seq!['m', 'h']);
            reveal_strlit("mi");
            assert("mi"@ =~= seq!['m', 'i']);
            reveal_strlit("no");
            assert("no"@ =~= seq!['n', 'o']);
            reveal_strlit("or");
            assert("or"@ =~= seq!['o', 'r']);
            reveal_strlit("ow");
            assert("ow"@ =~= seq!['o', 'w']);
            reveal_strlit("pi");
            assert("pi"@ =~= seq!['p', 'i']);
            reveal_strlit("bd");
            assert("bd"@ =~= seq!['b', 'd']);
            reveal_strlit("sg");
            assert("sg"@ =~= seq!['s', 'g']);
            reveal_strlit("so");
            assert("so"@ =~= seq!['s', 'o']);
            reveal_strlit("st");
            assert("st"@ =~= seq!['s', 't']);
            reveal_strlit("su");
            assert("su"@ =~= seq!['s', 'u']);
            reveal_strlit("tw");
            assert("tw"@ =~= seq!['t', 'w']);
        }
        let r = ColorMap { entries };
        assert(r@ =~= default_entries());
        r
    }
}

pub proof fn lemma_insertion_point(e: Seq<Entry>, o: int)
    ensures
        0 <= insertion_point(e, o) <= e.len(),
        insertion_point(e, o) > 0 ==> e[insertion_point(e, o) - 1].1.order <= o,
        forall|k: int| insertion_point(e, o) <= k < e.len() ==> e[k].1.order > o,
    decreases e.len(),
{
    if e.len() > 0 && e.last().1.order > o {
        lemma_insertion_point(e.drop_last(), o);
        assert(forall|k: int| 0 <= k < e.len() - 1 ==> e.drop_last()[k] == e[k]);
    }
}

impl ColorMap {
    /// The number of rules.
    pub fn len(&self) -> (r: usize)
        ensures
            r == self@.len(),
    {
        self.entries.len()
    }

    /// The key and rule at position `i`, in rank order.
    pub fn entry(&self, i: usize) -> (r: (&String, &LsItem))
        requires
            i < self@.len(),
        ensures
            r.0@ == self@[i as int].0,
            r.1@ == self@[i as int].1,
    {
        let e = &self.entries[i];
        (&e.0, &e.1)
    }

    /// The position of the rule with key `key`.
    pub fn position(&self, key: &str) -> (r: Option<usize>)
        requires
            table_wf(self@),
        ensures
            match r {
                Some(i) => i < self@.len() && self@[i as int].0 == key@ && i == key_pos(self@, key@),
                None => !has_key(self@, key@),
            },
    {
        let k = key.to_string();
        let mut i: usize = 0;
        while i < self.entries.len()
            invariant
                i <= self.entries.len(),
                k@ == key@,
                table_wf(self@),
                forall|j: int| 0 <= j < i ==> self@[j].0 != key@,
            decreases self.entries.len() - i,
        {
            if self.entries[i].0 == k {
                assert(self@[i as int].0 == key@);
                assert(has_key(self@, key@));
                let ghost p = key_pos(self@, key@);
                assert(0 <= p < self@.len() && self@[p].0 == key@);
                assert(p == i) by {
                    if p < i {
                        assert(self@[p].0 != self@[i as int].0);
                    } else if p > i {
                        assert(self@[i as int].0 != self@[p].0);
                    }
                }
                return Some(i);
            }
            i = i + 1;
        }
        None
    }

    /// Whether the table has a rule with key `key`.
    pub fn contains_key(&self, key: &str) -> (r: bool)
        requires
            table_wf(self@),
        ensures
            r == has_key(self@, key@),
    {
        self.position(key).is_some()
    }

    /// The rule with key `key`, if there is one.
    pub fn get(&self, key: &str) -> (r: Option<&LsItem>)
        requires
            table_wf(self@),
        ensures
            match r {
                Some(item) => has_key(self@, key@) && item@ == self@[key_pos(self@, key@)].1,
                None => !has_key(self@, key@),
            },
    {
        match self.position(key) {
            Some(i) => Some(&self.entries[i].1),
            None => None,
        }
    }

    /// Replaces the three codes of the rule at position `p`.
    pub(crate) fn update_codes(
        &mut self,
        p: usize,
        style: Option<Style>,
        color: Option<Color>,
        bg: Option<Background>,
    )
        requires
            table_wf(old(self)@),
            p < old(self)@.len(),
        ensures
            final(self)@ == with_codes(old(self)@, p as int, style, color, bg),
            table_wf(final(self)@),
    {
        let (key, item) = self.entries.remove(p);
        let item = LsItem { style, color, bg, ..item };
        self.entries.insert(p, (key, item));
        assert(self@ =~= with_codes(old(self)@, p as int, style, color, bg));
    }

    /// Deletes the rule at position `p`.
    pub(crate) fn remove_at(&mut self, p: usize)
        requires
            table_wf(old(self)@),
            p < old(self)@.len(),
        ensures
            final(self)@ == old(self)@.remove(p as int),
            table_wf(final(self)@),
    {
        self.entries.remove(p);
        assert(self@ =~= old(self)@.remove(p as int));
    }

    /// Where a rule of rank `o` goes.
    fn insertion_index(&self, o: usize) -> (r: usize)
        ensures
            r == insertion_point(self@, o as int),
    {
        let ghost e = self@;
        let mut j: usize = self.entries.len();
        assert(e.take(e.len() as int) =~= e);
        while j > 0 && self.entries[j - 1].1.order > o
            invariant
                j <= self.entries.len(),
                e == self@,
                insertion_point(e, o as int) == insertion_point(e.take(j as int), o as int),
            decreases j,
        {
            assert(e.take(j as int).drop_last() =~= e.take(j - 1));
            assert(e.take(j as int).last() == e[j - 1]);
            j = j - 1;
        }
        if j > 0 {
            assert(e.take(j as int).last() == e[j - 1]);
        } else {
            assert(e.take(0).len() == 0);
        }
        j
    }

    /// Adds a rule for the new key `key`, in rank order.
    pub(crate) fn insert_item(&mut self, key: String, item: LsItem)
        requires
            table_wf(old(self)@),
            !has_key(old(self)@, key@),
        ensures
            final(self)@ == insert_entry(old(self)@, key@, item@),
            final(self)@.len() == old(self)@.len() + 1,
            table_wf(final(self)@),
    {
        let ghost e = self@;
        let j = self.insertion_index(item.order);
        proof {
            lemma_insertion_point(e, item.order as int);
        }
        self.entries.insert(j, (key, item));
        assert(self@ =~= insert_entry(e, key@, item@));
    }
}

} // verus!
