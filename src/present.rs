use vstd::prelude::*;
use vstd::string::*;

use crate::table::{code_text, colored, pad_left, spaces, table_wf, value_column, ColorMap, Entry};
use crate::text::{is_extension, is_extension_key, join, join_all};

verus! {

/// Whether the rules at `i` and `j` share a preview line group: the same
/// rule, or two extension rules with the same code text.
pub open spec fn same_group(e: Seq<Entry>, i: int, j: int) -> bool {
    i == j || (is_extension_key(e[i].0) && is_extension_key(e[j].0) && code_text(e[i].1)
        == code_text(e[j].1))
}

/// Whether position `i` stands in some group of `g`.
pub open spec fn in_groups(g: Seq<Seq<int>>, i: int) -> bool {
    exists|k: int, a: int| 0 <= k < g.len() && 0 <= a < g[k].len() && #[trigger] g[k][a] == i
}

/// Whether `g` groups the rules of `e` below `n`: every such rule stands in
/// exactly one group, members rise within a group, a group holds exactly the
/// rules that share it, and groups come in the order of their first member.
pub open spec fn grouping_of(e: Seq<Entry>, g: Seq<Seq<int>>, n: int) -> bool {
    &&& forall|k: int| 0 <= k < g.len() ==> g[k].len() > 0
    &&& forall|k: int, a: int| 0 <= k < g.len() && 0 <= a < g[k].len() ==> 0 <= #[trigger] g[k][a] < n
    &&& forall|k: int, a: int, b: int|
        0 <= k < g.len() && 0 <= a < b < g[k].len() ==> #[trigger] g[k][a] < #[trigger] g[k][b]
    &&& forall|i: int| 0 <= i < n ==> #[trigger] in_groups(g, i)
    &&& forall|k: int, a: int|
        0 <= k < g.len() && 0 <= a < g[k].len() ==> same_group(e, g[k][0], #[trigger] g[k][a])
    &&& forall|k: int, l: int, a: int, b: int|
        0 <= k < g.len() && 0 <= l < g.len() && k != l && 0 <= a < g[k].len() && 0 <= b
            < g[l].len() ==> !same_group(e, #[trigger] g[k][a], #[trigger] g[l][b])
    &&& forall|k: int, l: int| 0 <= k < l < g.len() ==> #[trigger] g[k][0] < #[trigger] g[l][0]
}

/// The view of a list of groups of positions.
pub open spec fn groups_view(g: Seq<Vec<usize>>) -> Seq<Seq<int>> {
    g.map_values(|v: Vec<usize>| v@.map_values(|x: usize| x as int))
}

/// The code text of every rule, in order.
fn code_texts(map: &ColorMap) -> (r: Vec<String>)
    ensures
        r@.len() == map@.len(),
        forall|i: int| 0 <= i < r@.len() ==> r@[i]@ == code_text(map@[i].1),
{
    let mut r: Vec<String> = Vec::new();
    let mut i: usize = 0;
    while i < map.len()
        invariant
            i <= map@.len(),
            r@.len() == i,
            forall|j: int| 0 <= j < i ==> r@[j]@ == code_text(map@[j].1),
        decreases map@.len() - i,
    {
        let (_, item) = map.entry(i);
        r.push(item.make_color_id());
        i = i + 1;
    }
    r
}

/// Groups the rules for the preview: each rule that is not an extension rule
/// alone, extension rules with the same code text together.
pub fn preview_groups(map: &ColorMap) -> (r: Vec<Vec<usize>>)
    requires
        table_wf(map@),
    ensures
        grouping_of(map@, groups_view(r@), map@.len() as int),
{
    let ghost e = map@;
    let codes = code_texts(map);
    let mut groups: Vec<Vec<usize>> = Vec::new();
    let mut i: usize = 0;
    while i < map.len()
        invariant
            e == map@,
            i <= e.len(),
            codes@.len() == e.len(),
            forall|j: int| 0 <= j < codes@.len() ==> codes@[j]@ == code_text(e[j].1),
            grouping_of(e, groups_view(groups@), i as int),
        decreases e.len() - i,
    {
        let ghost g = groups_view(groups@);
        let (key, _) = map.entry(i);
        let ext = is_extension(key.as_str());
        let mut found: Option<usize> = None;
        if ext {
            let mut k: usize = 0;
            while k < groups.len() && found.is_none()
                invariant
                    e == map@,
                    i < e.len(),
                    ext == is_extension_key(e[i as int].0),
                    ext,
                    codes@.len() == e.len(),
                    forall|j: int| 0 <= j < codes@.len() ==> codes@[j]@ == code_text(e[j].1),
                    g == groups_view(groups@),
                    grouping_of(e, g, i as int),
                    k <= groups.len(),
                    found matches Some(kk) ==> kk < g.len() && same_group(e, g[kk as int][0], i as int),
                    found is None ==> forall|l: int| 0 <= l < k ==> !same_group(e, g[l][0], i as int),
                decreases groups.len() - k + (if found is None { 1int } else { 0int }),
            {
                assert(g[k as int].len() == groups@[k as int]@.len());
                let first = groups[k][0];
                assert(g[k as int][0] == first as int);
                let (fkey, _) = map.entry(first);
                if is_extension(fkey.as_str()) && codes[first] == codes[i] {
                    found = Some(k);
                } else {
                    k = k + 1;
                }
            }
        }
        assert(forall|l: int| 0 <= l < g.len() ==> g[l].len() > 0);
        match found {
            Some(k) => {
                assert(same_group(e, g[k as int][0], i as int));
                let ghost before = groups@;
                let mut v = groups.remove(k);
                assert(v@.map_values(|x: usize| x as int) == g[k as int]);
                let ghost v0 = v@;
                v.push(i);
                assert(v@.map_values(|x: usize| x as int) =~= g[k as int].push(i as int)) by {
                    assert(v@ == v0.push(i));
                    assert(v0.map_values(|x: usize| x as int) == g[k as int]);
                }
                groups.insert(k, v);
                assert(groups@ =~= before.update(k as int, v));
                let ghost g2 = groups_view(groups@);
                assert(g2 =~= g.update(k as int, g[k as int].push(i as int)));
                assert(grouping_of(e, g2, i + 1)) by {
                    assert forall|l: int, b: int|
                        0 <= l < g.len() && l != k && 0 <= b < g[l].len() implies !same_group(
                        e,
                        i as int,
                        g[l][b],
                    ) by {
                        if same_group(e, i as int, g[l][b]) {
                            assert(same_group(e, g[k as int][0], g[l][b]));
                        }
                    }
                    assert forall|ii: int| 0 <= ii < i + 1 implies #[trigger] in_groups(g2, ii) by {
                        if ii == i {
                            assert(g2[k as int][g[k as int].len() as int] == ii);
                        } else {
                            assert(in_groups(g, ii));
                            let (kk, a) = choose|kk: int, a: int|
                                0 <= kk < g.len() && 0 <= a < g[kk].len() && #[trigger] g[kk][a] == ii;
                            assert(g2[kk][a] == ii);
                        }
                    }
                }
            },
            None => {
                assert(forall|l: int| 0 <= l < g.len() ==> !same_group(e, g[l][0], i as int)) by {
                    if !ext {
                        assert(forall|l: int| 0 <= l < g.len() ==> g[l][0] < i);
                    }
                }
                let v: Vec<usize> = vec![i];
                assert(v@.map_values(|x: usize| x as int) =~= seq![i as int]);
                groups.push(v);
                let ghost g2 = groups_view(groups@);
                assert(g2 =~= g.push(seq![i as int]));
                assert(grouping_of(e, g2, i + 1)) by {
                    assert forall|l: int, b: int|
                        0 <= l < g.len() && 0 <= b < g[l].len() implies !same_group(
                        e,
                        i as int,
                        g[l][b],
                    ) by {
                        if same_group(e, i as int, g[l][b]) {
                            assert(same_group(e, g[l][0], g[l][b]));
                            assert(same_group(e, g[l][0], i as int));
                        }
                    }
                    assert forall|ii: int| 0 <= ii < i + 1 implies #[trigger] in_groups(g2, ii) by {
                        if ii == i {
                            assert(g2[g.len() as int][0] == ii);
                        } else {
                            assert(in_groups(g, ii));
                            let (kk, a) = choose|kk: int, a: int|
                                0 <= kk < g.len() && 0 <= a < g[kk].len() && #[trigger] g[kk][a] == ii;
                            assert(g2[kk][a] == ii);
                        }
                    }
                }
            },
        }
        i = i + 1;
    }
    groups
}

/// How many extension keys one preview line holds.
pub const CHUNK: usize = 13;

/// The keys of chunk `t` of the group `m`.
pub open spec fn chunk_keys(e: Seq<Entry>, m: Seq<int>, t: int) -> Seq<Seq<char>> {
    let start = 13 * t;
    let end = if start + 13 < m.len() {
        start + 13
    } else {
        m.len() as int
    };
    Seq::new((end - start) as nat, |x: int| e[m[start + x]].0)
}

/// The number of chunks of a group of `n` rules.
pub open spec fn chunk_count(n: int) -> int {
    (n + 12) / 13
}

/// Line `t` of the preview of a group of several rules: the value column and
/// the first keys, then further keys right-aligned beneath.
pub open spec fn chunk_line(e: Seq<Entry>, m: Seq<int>, t: int) -> Seq<char> {
    let item = e[m[0]].1;
    let text = join(chunk_keys(e, m, t), seq![';']);
    if t == 0 {
        value_column(item) + " : "@ + colored(code_text(item), text)
    } else {
        pad_left(colored(code_text(item), text), text.len() as int + 33)
    }
}

/// The preview lines of the group `m`: a lone rule shows its key and its
/// description, several rules show their keys in chunks.
pub open spec fn group_lines(e: Seq<Entry>, m: Seq<int>) -> Seq<Seq<char>> {
    if m.len() == 1 {
        let x = e[m[0]];
        seq![
            value_column(x.1) + " : ["@ + x.0 + "] "@ + colored(code_text(x.1), x.1.description),
        ]
    } else {
        Seq::new(chunk_count(m.len() as int) as nat, |t: int| chunk_line(e, m, t))
    }
}

/// The line lists one after another.
pub open spec fn concat_lines(s: Seq<Seq<Seq<char>>>) -> Seq<Seq<char>>
    decreases s.len(),
{
    if s.len() == 0 {
        Seq::empty()
    } else {
        concat_lines(s.drop_last()) + s.last()
    }
}

/// The preview lines of one group.
fn lines_of_group(map: &ColorMap, m: &Vec<usize>) -> (r: Vec<String>)
    requires
        m@.len() > 0,
        forall|a: int| 0 <= a < m@.len() ==> m@[a] < map@.len(),
    ensures
        r@.map_values(|s: String| s@) == group_lines(map@, m@.map_values(|x: usize| x as int)),
{
    let ghost e = map@;
    let ghost mi = m@.map_values(|x: usize| x as int);
    let mut r: Vec<String> = Vec::new();
    let (key, item) = map.entry(m[0]);
    if m.len() == 1 {
        let mut line = item.display_colors_values();
        line.append(" : [");
        line.append(key.as_str());
        line.append("] ");
        line.append(item._preview().as_str());
        r.push(line);
        assert(r@.map_values(|s: String| s@) =~= group_lines(e, mi));
        return r;
    }
    let n = m.len();
    let mut start: usize = 0;
    let mut t: usize = 0;
    let sep = ";";
    proof {
        reveal_strlit(";");
        assert(sep@ =~= seq![';']);
    }
    while start < n
        invariant
            e == map@,
            mi == m@.map_values(|x: usize| x as int),
            n == m@.len(),
            n > 1,
            forall|a: int| 0 <= a < m@.len() ==> m@[a] < map@.len(),
            key@ == e[mi[0]].0,
            item@ == e[mi[0]].1,
            sep@ == seq![';'],
            start <= n,
            13 * t < n ==> start == 13 * t,
            13 * t >= n ==> start == n,
            t <= chunk_count(n as int),
            start < n ==> t < chunk_count(n as int),
            start >= n ==> t == chunk_count(n as int),
            r@.map_values(|s: String| s@) == Seq::new(t as nat, |u: int| chunk_line(e, mi, u)),
        decreases n - start,
    {
        let end = if n - start > CHUNK {
            start + CHUNK
        } else {
            n
        };
        assert(start == 13 * t);
        let mut keys: Vec<String> = Vec::new();
        let mut j: usize = start;
        while j < end
            invariant
                e == map@,
                mi == m@.map_values(|x: usize| x as int),
                n == m@.len(),
                forall|a: int| 0 <= a < m@.len() ==> m@[a] < map@.len(),
                start <= j <= end <= n,
                keys@.map_values(|s: String| s@) == Seq::new(
                    (j - start) as nat,
                    |x: int| e[mi[start + x]].0,
                ),
            decreases end - j,
        {
            let (k, _) = map.entry(m[j]);
            let ghost before = keys@.map_values(|s: String| s@);
            keys.push(k.clone());
            assert(keys@.map_values(|s: String| s@) =~= Seq::new(
                (j + 1 - start) as nat,
                |x: int| e[mi[start + x]].0,
            )) by {
                assert(keys@.map_values(|s: String| s@) =~= before.push(k@));
            }
            j = j + 1;
        }
        assert(keys@.map_values(|s: String| s@) =~= chunk_keys(e, mi, t as int));
        let text = join_all(&keys, sep);
        let line = if t == 0 {
            let mut line = item.display_colors_values();
            line.append(" : ");
            line.append(item.color_helper(text.as_str()).as_str());
            line
        } else {
            let id_len = item.make_color_id().unicode_len();
            let shown = item.color_helper(text.as_str());
            let mut line = if id_len < 26 {
                spaces(26 - id_len)
            } else {
                String::new()
            };
            line.append(shown.as_str());
            assert(line@ =~= pad_left(shown@, text@.len() as int + 33));
            line
        };
        assert(line@ == chunk_line(e, mi, t as int));
        let ghost before = r@.map_values(|s: String| s@);
        r.push(line);
        assert(r@.map_values(|s: String| s@) =~= Seq::new(
            (t + 1) as nat,
            |u: int| chunk_line(e, mi, u),
        )) by {
            assert(r@.map_values(|s: String| s@) =~= before.push(line@));
        }
        proof {
            let tt = t as int;
            let nn = n as int;
            if 13 * tt + 13 < nn {
                assert(tt + 1 < chunk_count(nn)) by (nonlinear_arith)
                    requires 13 * tt + 13 < nn;
            } else {
                assert(tt + 1 == chunk_count(nn)) by (nonlinear_arith)
                    requires 13 * tt + 13 >= nn, 13 * tt < nn;
            }
        }
        start = end;
        t = t + 1;
    }
    assert(r@.map_values(|s: String| s@) =~= group_lines(e, mi));
    r
}

/// The preview of the whole table: the groups' lines in the order of their
/// first rule.
pub fn preview_lines(map: &ColorMap) -> (r: Vec<String>)
    requires
        table_wf(map@),
    ensures
        exists|g: Seq<Seq<int>>|
            grouping_of(map@, g, map@.len() as int) && r@.map_values(|s: String| s@)
                == concat_lines(g.map_values(|m: Seq<int>| group_lines(map@, m))),
{
    let groups = preview_groups(map);
    let ghost g = groups_view(groups@);
    let mut r: Vec<String> = Vec::new();
    let mut k: usize = 0;
    while k < groups.len()
        invariant
            g == groups_view(groups@),
            grouping_of(map@, g, map@.len() as int),
            k <= groups.len(),
            r@.map_values(|s: String| s@) == concat_lines(
                g.take(k as int).map_values(|m: Seq<int>| group_lines(map@, m)),
            ),
        decreases groups.len() - k,
    {
        assert(g[k as int] == groups@[k as int]@.map_values(|x: usize| x as int));
        assert forall|a: int| 0 <= a < groups@[k as int]@.len() implies #[trigger] groups@[k as int]@[a] < map@.len() by {
            assert(g[k as int][a] == groups@[k as int]@[a] as int);
        }
        let lines = lines_of_group(map, &groups[k]);
        let ghost before = r@.map_values(|s: String| s@);
        let mut j: usize = 0;
        while j < lines.len()
            invariant
                j <= lines.len(),
                r@.map_values(|s: String| s@) == before + lines@.take(j as int).map_values(
                    |s: String| s@,
                ),
            decreases lines.len() - j,
        {
            let ghost b2 = r@.map_values(|s: String| s@);
            r.push(lines[j].clone());
            assert(r@.map_values(|s: String| s@) =~= b2.push(lines@[j as int]@));
            assert(lines@.take(j + 1).map_values(|s: String| s@) =~= lines@.take(j as int).map_values(
                |s: String| s@,
            ).push(lines@[j as int]@));
            j = j + 1;
        }
        assert(lines@.take(lines.len() as int) =~= lines@);
        let ghost gl = g.take(k + 1).map_values(|m: Seq<int>| group_lines(map@, m));
        assert(gl.drop_last() =~= g.take(k as int).map_values(|m: Seq<int>| group_lines(map@, m)));
        k = k + 1;
    }
    assert(g.take(groups.len() as int) =~= g);
    r
}

} // verus!
