//! The INI inventory format, and telling it apart from YAML.
use vstd::prelude::*;

use crate::canonicalize::strs;
use crate::host_pattern::{expand_host_pattern, spec_expand};
use crate::inventory::{
    spec_add_child_group, spec_add_host_to_group, spec_ensure_group, spec_ensure_host,
    spec_set_group_var, spec_set_host_var, InventoryData, InventoryModel,
};
use crate::text::{
    char_seqs, chars_of, contains_seq, find_char, find_char_from_exec, lines_of, seq_eq,
    slice_vec, spec_lines, spec_words, starts_with, starts_with_exec, string_of, string_of_range,
    trim, trim_exec, trim_start, trim_start_exec, words_of, contains_exec, find_char_from, lines_from,
    strip_cr, ws_prefix_end, ws_suffix_start, lemma_find_char_from_bounds,
};

verus! {

broadcast use vstd::string::group_string_axioms;

/// The section a line of an INI inventory belongs to.
pub enum SectionModel {
    NoSection,
    Group(Seq<char>),
    Children(Seq<char>),
    Vars(Seq<char>),
}

/// The variables `key=value` given after a host on one line, set in order.
pub open spec fn host_vars_fold(m: InventoryModel, h: Seq<char>, parts: Seq<Seq<char>>) -> InventoryModel
    decreases parts.len(),
{
    if parts.len() == 0 {
        m
    } else {
        let m1 = host_vars_fold(m, h, parts.drop_last());
        let part = parts.last();
        match find_char(part, '=') {
            Some(eq) => spec_set_host_var(m1, h, part.take(eq), part.skip(eq + 1)),
            None => m1,
        }
    }
}

/// One host of a host line: known, a member of the section's group, with its variables.
pub open spec fn one_host(m: InventoryModel, h: Seq<char>, group: Option<Seq<char>>, rest: Seq<Seq<char>>) -> InventoryModel {
    let m1 = spec_ensure_host(m, h);
    let m2 = match group {
        Some(g) => spec_add_host_to_group(m1, h, g),
        None => m1,
    };
    host_vars_fold(m2, h, rest)
}

/// Every host of a host line, in order.
pub open spec fn hosts_fold(m: InventoryModel, hosts: Seq<Seq<char>>, group: Option<Seq<char>>, rest: Seq<Seq<char>>) -> InventoryModel
    decreases hosts.len(),
{
    if hosts.len() == 0 {
        m
    } else {
        one_host(hosts_fold(m, hosts.drop_last(), group, rest), hosts.last(), group, rest)
    }
}

/// A host line: a host pattern, then `key=value` words; every host the
/// pattern expands to is added with those variables.
pub open spec fn spec_host_line(m: InventoryModel, line: Seq<char>, group: Option<Seq<char>>) -> InventoryModel {
    let parts = spec_words(line);
    if parts.len() == 0 {
        m
    } else {
        hosts_fold(m, spec_expand(parts[0]), group, parts.skip(1))
    }
}

/// The first word of a line, or the line itself when it has none.
pub open spec fn first_word(line: Seq<char>) -> Seq<char> {
    if spec_words(line).len() > 0 {
        spec_words(line)[0]
    } else {
        line
    }
}

/// One line of an INI inventory, read in a section: comments and blank lines
/// are skipped; `[name]`, `[name:children]` and `[name:vars]` open sections;
/// other lines are hosts, child groups or `key=value` group variables.
pub open spec fn ini_line(m: InventoryModel, sec: SectionModel, raw: Seq<char>) -> (InventoryModel, SectionModel) {
    let line = trim(raw);
    if line.len() == 0 || line[0] == '#' || line[0] == ';' {
        (m, sec)
    } else if line[0] == '[' && line.last() == ']' {
        let inner = line.subrange(1, line.len() - 1);
        match find_char(inner, ':') {
            Some(c) => {
                let name = inner.take(c);
                let q = inner.skip(c + 1);
                if q == "children"@ {
                    (spec_ensure_group(m, name), SectionModel::Children(name))
                } else if q == "vars"@ {
                    (spec_ensure_group(m, name), SectionModel::Vars(name))
                } else {
                    (spec_ensure_group(m, inner), SectionModel::Group(inner))
                }
            },
            None => (spec_ensure_group(m, inner), SectionModel::Group(inner)),
        }
    } else {
        match sec {
            SectionModel::NoSection => (spec_host_line(m, line, None), sec),
            SectionModel::Group(g) => (spec_host_line(m, line, Some(g)), sec),
            SectionModel::Children(p) => (spec_add_child_group(m, p, first_word(line)), sec),
            SectionModel::Vars(g) => match find_char(line, '=') {
                Some(eq) => (spec_set_group_var(m, g, trim(line.take(eq)), trim(line.skip(eq + 1))), sec),
                None => (m, sec),
            },
        }
    }
}

/// The inventory and section after reading the lines in order.
pub open spec fn ini_fold(m: InventoryModel, lines: Seq<Seq<char>>) -> (InventoryModel, SectionModel)
    decreases lines.len(),
{
    if lines.len() == 0 {
        (m, SectionModel::NoSection)
    } else {
        let (m1, s1) = ini_fold(m, lines.drop_last());
        ini_line(m1, s1, lines.last())
    }
}

/// A line that reading skips: blank, or a comment starting with `#` or `;`.
pub open spec fn ini_skipped_line(raw: Seq<char>) -> bool {
    let line = trim(raw);
    line.len() == 0 || line[0] == '#' || line[0] == ';'
}

/// Blank and comment lines, wherever they stand among an inventory's lines,
/// change neither the inventory read nor the section reading ends in.
pub proof fn law_ini_ignores_blank_and_comment_lines(
    m: InventoryModel,
    lines: Seq<Seq<char>>,
    k: int,
    extra: Seq<char>,
)
    requires
        0 <= k <= lines.len(),
        ini_skipped_line(extra),
    ensures
        ini_fold(m, lines.insert(k, extra)) == ini_fold(m, lines),
    decreases lines.len(),
{
    let with = lines.insert(k, extra);
    if k == lines.len() {
        assert(with.drop_last() =~= lines);
    } else {
        assert(with.drop_last() =~= lines.drop_last().insert(k, extra));
        assert(with.last() == lines.last());
        law_ini_ignores_blank_and_comment_lines(m, lines.drop_last(), k, extra);
    }
}

/// Searching the second part of a text is searching that part, shifted.
proof fn lemma_find_shift(a: Seq<char>, b: Seq<char>, c: char, j: int)
    requires
        0 <= j,
    ensures
        find_char_from(a + b, c, a.len() + j) == match find_char_from(b, c, j) {
            Some(e) => Some(e + a.len()),
            None => None::<int>,
        },
    decreases b.len() - j,
{
    if j < b.len() {
        assert((a + b)[a.len() + j] == b[j]);
        if b[j] != c {
            lemma_find_shift(a, b, c, j + 1);
        }
    }
}

/// A character found in the first part is found there in the whole text.
proof fn lemma_find_prefix(a: Seq<char>, b: Seq<char>, c: char, i: int)
    requires
        0 <= i < a.len(),
        a.last() == c,
    ensures
        find_char_from(a, c, i) is Some,
        find_char_from(a + b, c, i) == find_char_from(a, c, i),
        i <= find_char_from(a, c, i)->Some_0 < a.len(),
    decreases a.len() - i,
{
    assert((a + b)[i] == a[i]);
    if a[i] != c {
        lemma_find_prefix(a, b, c, i + 1);
    }
}

/// The lines of the second part of a text, read within the whole.
proof fn lemma_lines_shift(a: Seq<char>, b: Seq<char>, j: int)
    requires
        0 <= j,
    ensures
        lines_from(a + b, a.len() + j) == lines_from(b, j),
    decreases b.len() - j,
{
    let t = a + b;
    if j < b.len() {
        lemma_find_shift(a, b, '\n', j);
        match find_char_from(b, '\n', j) {
            Some(e) => {
                lemma_find_in_range(b, '\n', j);
                assert(t.subrange(a.len() + j, a.len() + e) =~= b.subrange(j, e));
                lemma_lines_shift(a, b, e + 1);
            },
            None => {
                assert(t.subrange(a.len() + j, t.len() as int) =~= b.subrange(j, b.len() as int));
            },
        }
    }
}

/// A found character lies at or after where the search began, within the text.
proof fn lemma_find_in_range(t: Seq<char>, c: char, i: int)
    requires
        0 <= i,
    ensures
        find_char_from(t, c, i) matches Some(e) ==> i <= e < t.len(),
    decreases t.len() - i,
{
    if i < t.len() && t[i] != c {
        lemma_find_in_range(t, c, i + 1);
    }
}

/// The lines of a text whose first part ends a line are the lines of the
/// first part, then those of the second.
proof fn lemma_lines_concat(a: Seq<char>, b: Seq<char>, i: int)
    requires
        a.len() == 0 || a.last() == '\n',
        0 <= i <= a.len(),
    ensures
        lines_from(a + b, i) == lines_from(a, i) + lines_from(b, 0),
    decreases a.len() - i,
{
    let t = a + b;
    if i == a.len() {
        lemma_lines_shift(a, b, 0);
        assert(lines_from(a, i) =~= Seq::<Seq<char>>::empty());
        assert(lines_from(a, i) + lines_from(b, 0) =~= lines_from(b, 0));
    } else {
        lemma_find_prefix(a, b, '\n', i);
        let e = find_char_from(a, '\n', i)->Some_0;
        assert(t.subrange(i, e) =~= a.subrange(i, e));
        lemma_lines_concat(a, b, e + 1);
        assert(lines_from(t, i) == seq![strip_cr(t.subrange(i, e))] + lines_from(t, e + 1));
        assert(lines_from(a, i) == seq![strip_cr(a.subrange(i, e))] + lines_from(a, e + 1));
        assert(seq![strip_cr(a.subrange(i, e))] + (lines_from(a, e + 1) + lines_from(b, 0)) =~= (seq![
            strip_cr(a.subrange(i, e)),
        ] + lines_from(a, e + 1)) + lines_from(b, 0));
    }
}

/// A line with its end is one line.
proof fn lemma_one_line(x: Seq<char>)
    requires
        forall|i: int| 0 <= i < x.len() ==> x[i] != '\n',
    ensures
        spec_lines(x + "\n"@) == seq![strip_cr(x)],
{
    reveal_strlit("\n");
    let t = x + "\n"@;
    let n = x.len() as int;
    assert(t.len() == n + 1);
    assert(t[n] == '\n');
    assert forall|i: int| 0 <= i < n implies t[i] != '\n' by {
        assert(t[i] == x[i]);
    }
    lemma_find_no_newline(t, n, 0);
    assert(t.subrange(0, n) =~= x);
    assert(lines_from(t, n + 1) =~= Seq::<Seq<char>>::empty());
    assert(lines_from(t, 0) == seq![strip_cr(t.subrange(0, n))] + lines_from(t, n + 1));
    assert(seq![strip_cr(x)] + Seq::<Seq<char>>::empty() =~= seq![strip_cr(x)]);
}

/// Before the first newline, searching from `i` finds the one at `n`.
proof fn lemma_find_no_newline(t: Seq<char>, n: int, i: int)
    requires
        0 <= i <= n < t.len(),
        t[n] == '\n',
        forall|k: int| 0 <= k < n ==> t[k] != '\n',
    ensures
        find_char_from(t, '\n', i) == Some(n),
    decreases n - i,
{
    if i < n {
        lemma_find_no_newline(t, n, i + 1);
    }
}

/// A blank or comment line put into an INI inventory's text between two of
/// its lines, or at its start or end, changes nothing it reads.
pub proof fn law_ini_text_ignores_blank_and_comment_lines(m: InventoryModel, a: Seq<char>, b: Seq<char>, x: Seq<char>)
    requires
        a.len() == 0 || a.last() == '\n',
        forall|i: int| 0 <= i < x.len() ==> x[i] != '\n' && x[i] != '\r',
        ini_skipped_line(x),
    ensures
        spec_parse_ini(a + x + "\n"@ + b, m) == spec_parse_ini(a + b, m),
{
    reveal_strlit("\n");
    let xl = x + "\n"@;
    assert(xl.last() == '\n');
    assert(a + x + "\n"@ + b =~= a + (xl + b));
    lemma_lines_concat(a, xl + b, 0);
    lemma_lines_concat(xl, b, 0);
    lemma_lines_concat(a, b, 0);
    assert forall|i: int| 0 <= i < x.len() implies x[i] != '\n' by {}
    lemma_one_line(x);
    assert(strip_cr(x) == x) by {
        if x.len() > 0 {
            assert(x[x.len() - 1] != '\r');
        }
    }
    let la = spec_lines(a);
    let lb = spec_lines(b);
    assert(spec_lines(a + (xl + b)) == la + (seq![x] + lb));
    assert(la + (seq![x] + lb) =~= (la + lb).insert(la.len() as int, x));
    law_ini_ignores_blank_and_comment_lines(m, la + lb, la.len() as int, x);
}

/// The inventory after reading an INI inventory into `m`.
pub open spec fn spec_parse_ini(content: Seq<char>, m: InventoryModel) -> InventoryModel {
    ini_fold(m, spec_lines(content)).0
}

/// Content that reads as YAML rather than INI.
pub open spec fn spec_is_yaml_content(content: Seq<char>) -> bool {
    let t = trim_start(content);
    ||| starts_with(t, "---"@)
    ||| starts_with(t, "all:"@)
    ||| starts_with(t, "ungrouped:"@)
    ||| (contains_seq(t, ":"@) && !starts_with(t, "["@))
}

/// The section while reading an INI inventory.
pub enum Section {
    NoSection,
    Group(String),
    Children(String),
    Vars(String),
}

impl View for Section {
    type V = SectionModel;

    open spec fn view(&self) -> SectionModel {
        match self {
            Section::NoSection => SectionModel::NoSection,
            Section::Group(g) => SectionModel::Group(g@),
            Section::Children(g) => SectionModel::Children(g@),
            Section::Vars(g) => SectionModel::Vars(g@),
        }
    }
}

/// Whether the characters are those of the literal.
fn is_lit(v: &Vec<char>, lit: &str) -> (r: bool)
    ensures
        r == (v@ == lit@),
{
    seq_eq(v, &chars_of(lit))
}

/// Reads an INI inventory into `data`.
pub fn parse_ini_inventory(content: &str, data: &mut InventoryData)
    ensures
        final(data)@ == spec_parse_ini(content@, old(data)@),
{
    let text = chars_of(content);
    let lines = lines_of(&text);
    let mut section = Section::NoSection;
    let mut i: usize = 0;
    while i < lines.len()
        invariant
            0 <= i <= lines@.len(),
            char_seqs(lines@) == spec_lines(content@),
            (data@, section@) == ini_fold(old(data)@, char_seqs(lines@).take(i as int)),
        decreases lines.len() - i,
    {
        parse_ini_line(&lines[i], data, &mut section);
        assert(char_seqs(lines@).take(i + 1).drop_last() =~= char_seqs(lines@).take(i as int));
        i += 1;
    }
    assert(char_seqs(lines@).take(lines@.len() as int) =~= char_seqs(lines@));
}

fn parse_ini_line(raw: &Vec<char>, data: &mut InventoryData, section: &mut Section)
    ensures
        (final(data)@, final(section)@) == ini_line(old(data)@, old(section)@, raw@),
{
    let line = trim_exec(raw);
    if line.len() == 0 || line[0] == '#' || line[0] == ';' {
        return;
    }
    if line[0] == '[' && line[line.len() - 1] == ']' {
        let inner = slice_vec(&line, 1, line.len() - 1);
        match find_char_from_exec(&inner, ':', 0) {
            Some(c) => {
                proof {
                    crate::text::lemma_find_char_from_bounds(inner@, ':', 0);
                }
                let name = slice_vec(&inner, 0, c);
                let q = slice_vec(&inner, c + 1, inner.len());
                assert(name@ == inner@.take(c as int));
                assert(q@ == inner@.skip(c + 1));
                if is_lit(&q, "children") {
                    let n = string_of(&name);
                    data.ensure_group(n.as_str());
                    *section = Section::Children(n);
                } else if is_lit(&q, "vars") {
                    let n = string_of(&name);
                    data.ensure_group(n.as_str());
                    *section = Section::Vars(n);
                } else {
                    let n = string_of(&inner);
                    data.ensure_group(n.as_str());
                    *section = Section::Group(n);
                }
            },
            None => {
                let n = string_of(&inner);
                data.ensure_group(n.as_str());
                *section = Section::Group(n);
            },
        }
        return;
    }
    match section {
        Section::NoSection => {
            parse_ini_host_line(&line, data, None);
        },
        Section::Group(g) => {
            parse_ini_host_line(&line, data, Some(g.as_str()));
        },
        Section::Children(p) => {
            let words = words_of(&line);
            let child = if words.len() > 0 {
                string_of(&words[0])
            } else {
                string_of(&line)
            };
            data.add_child_group(p.as_str(), child.as_str());
        },
        Section::Vars(g) => {
            match find_char_from_exec(&line, '=', 0) {
                Some(eq) => {
                    proof {
                        crate::text::lemma_find_char_from_bounds(line@, '=', 0);
                    }
                    let key = trim_exec(&slice_vec(&line, 0, eq));
                    let value = trim_exec(&slice_vec(&line, eq + 1, line.len()));
                    assert(line@.take(eq as int) == line@.subrange(0, eq as int));
                    assert(line@.skip(eq + 1) == line@.subrange(eq + 1, line@.len() as int));
                    data.set_group_var(g.as_str(), string_of(&key).as_str(), string_of(&value).as_str());
                },
                None => {},
            }
        },
    }
}

/// Reads one host line of an INI inventory: every host its pattern expands
/// to is added, to `group` if given, with the line's `key=value` variables.
pub fn parse_ini_host_line(line: &Vec<char>, data: &mut InventoryData, group: Option<&str>)
    ensures
        final(data)@ == spec_host_line(old(data)@, line@, match group {
            Some(g) => Some(g@),
            None => None,
        }),
{
    let ghost gm: Option<Seq<char>> = match group {
        Some(g) => Some(g@),
        None => None,
    };
    let parts = words_of(line);
    if parts.len() == 0 {
        return;
    }
    let pattern = string_of(&parts[0]);
    let hosts = expand_host_pattern(pattern.as_str());
    let ghost rest = char_seqs(parts@).skip(1);
    let mut i: usize = 0;
    while i < hosts.len()
        invariant
            0 <= i <= hosts@.len(),
            parts@.len() > 0,
            rest == char_seqs(parts@).skip(1),
            strs(hosts@) == spec_expand(char_seqs(parts@)[0]),
            gm == match group {
                Some(g) => Some(g@),
                None => None::<Seq<char>>,
            },
            data@ == crate::ini_inventory::hosts_fold(old(data)@, strs(hosts@).take(i as int), gm, rest),
        decreases hosts.len() - i,
    {
        let host = hosts[i].as_str();
        data.ensure_host(host);
        match group {
            Some(g) => data.add_host_to_group(host, g),
            None => {},
        }
        let ghost base = data@;
        let mut k: usize = 1;
        while k < parts.len()
            invariant
                1 <= k <= parts@.len(),
                rest == char_seqs(parts@).skip(1),
                data@ == host_vars_fold(base, host@, rest.take(k - 1)),
            decreases parts.len() - k,
        {
            let part = &parts[k];
            match find_char_from_exec(part, '=', 0) {
                Some(eq) => {
                    proof {
                        crate::text::lemma_find_char_from_bounds(part@, '=', 0);
                    }
                    let key = string_of_range(part, 0, eq);
                    let value = string_of_range(part, eq + 1, part.len());
                    assert(part@.take(eq as int) == part@.subrange(0, eq as int));
                    assert(part@.skip(eq + 1) == part@.subrange(eq + 1, part@.len() as int));
                    data.set_host_var(host, key.as_str(), value.as_str());
                },
                None => {},
            }
            assert(rest.take(k as int).drop_last() =~= rest.take(k - 1));
            assert(rest.take(k as int).last() == part@);
            k += 1;
        }
        assert(rest.take(parts@.len() - 1) =~= rest);
        assert(strs(hosts@).take(i + 1).drop_last() =~= strs(hosts@).take(i as int));
        i += 1;
    }
    assert(strs(hosts@).take(hosts@.len() as int) =~= strs(hosts@));
}

/// Whether inventory content reads as YAML rather than INI.
pub fn is_yaml_content(content: &str) -> (r: bool)
    ensures
        r == spec_is_yaml_content(content@),
{
    let t = trim_start_exec(&chars_of(content));
    starts_with_exec(&t, &chars_of("---")) || starts_with_exec(&t, &chars_of("all:"))
        || starts_with_exec(&t, &chars_of("ungrouped:")) || (contains_exec(&t, &chars_of(":"))
        && !starts_with_exec(&t, &chars_of("[")))
}

/// A bracketed line is its own trim.
proof fn lemma_bracketed_trim(line: Seq<char>)
    requires
        line.len() >= 2,
        line[0] == '[',
        line.last() == ']',
    ensures
        trim(line) == line,
{
    assert(ws_prefix_end(line, 0) == 0);
    assert(ws_suffix_start(line, line.len() as int) == line.len());
    assert(line.subrange(0, line.len() as int) =~= line);
}

/// The first `:` of `g + ":"@ + rest`, where `g` holds none, is at the end of `g`.
proof fn lemma_first_colon(g: Seq<char>, rest: Seq<char>)
    requires
        forall|k: int| 0 <= k < g.len() ==> g[k] != ':',
    ensures
        find_char(g + seq![':'] + rest, ':') == Some(g.len() as int),
{
    let t = g + seq![':'] + rest;
    lemma_find_char_from_bounds(t, ':', 0);
    assert(t[g.len() as int] == ':');
    if let Some(j) = find_char(t, ':') {
        if j < g.len() {
            assert(t[j] == g[j]);
        }
    }
}

/// In an INI inventory, `[g:children]` opens the section of the child groups
/// of `g`, `[g:vars]` that of the variables of `g`, and `[g]` that of the
/// hosts of `g`; each makes sure the group `g` exists, whatever section came
/// before. Here `g` holds no `:`.
pub proof fn law_ini_section_headers(m: InventoryModel, sec: SectionModel, g: Seq<char>)
    requires
        forall|k: int| 0 <= k < g.len() ==> g[k] != ':',
    ensures
        ini_line(m, sec, "["@ + g + ":children]"@) == (spec_ensure_group(m, g), SectionModel::Children(g)),
        ini_line(m, sec, "["@ + g + ":vars]"@) == (spec_ensure_group(m, g), SectionModel::Vars(g)),
        ini_line(m, sec, "["@ + g + "]"@) == (spec_ensure_group(m, g), SectionModel::Group(g)),
{
    reveal_strlit("[");
    reveal_strlit("]");
    reveal_strlit(":children]");
    reveal_strlit(":vars]");
    reveal_strlit("children");
    reveal_strlit("vars");
    let l1 = "["@ + g + ":children]"@;
    let l2 = "["@ + g + ":vars]"@;
    let l3 = "["@ + g + "]"@;
    lemma_bracketed_trim(l1);
    lemma_bracketed_trim(l2);
    lemma_bracketed_trim(l3);
    let i1 = l1.subrange(1, l1.len() - 1);
    assert(i1 =~= g + seq![':'] + "children"@);
    lemma_first_colon(g, "children"@);
    assert(i1.take(g.len() as int) =~= g);
    assert(i1.skip(g.len() as int + 1) =~= "children"@);
    let i2 = l2.subrange(1, l2.len() - 1);
    assert(i2 =~= g + seq![':'] + "vars"@);
    lemma_first_colon(g, "vars"@);
    assert(i2.take(g.len() as int) =~= g);
    assert(i2.skip(g.len() as int + 1) =~= "vars"@);
    let i3 = l3.subrange(1, l3.len() - 1);
    assert(i3 =~= g);
    lemma_find_char_from_bounds(g, ':', 0);
}

/// An inventory reads as YAML when, past leading whitespace, it begins with
/// `---`, `all:` or `ungrouped:`; it reads as INI when it begins with `[`, or
/// holds no `:` and does not begin with `---`.
pub proof fn law_inventory_format(content: Seq<char>)
    ensures
        starts_with(trim_start(content), "---"@) || starts_with(trim_start(content), "all:"@) || starts_with(
            trim_start(content),
            "ungrouped:"@,
        ) ==> spec_is_yaml_content(content),
        trim_start(content).len() > 0 && trim_start(content)[0] == '[' ==> !spec_is_yaml_content(content),
        (forall|k: int| 0 <= k < content.len() ==> content[k] != ':') && !starts_with(trim_start(content), "---"@)
            ==> !spec_is_yaml_content(content),
{
    reveal_strlit("---");
    reveal_strlit("all:");
    reveal_strlit("ungrouped:");
    reveal_strlit("[");
    reveal_strlit(":");
    let t = trim_start(content);
    if t.len() > 0 && t[0] == '[' {
        assert(t.subrange(0, 1) =~= "["@);
        if starts_with(t, "---"@) {
            assert(t.subrange(0, 3)[0] == t[0]);
        }
        if starts_with(t, "all:"@) {
            assert(t.subrange(0, 4)[0] == t[0]);
        }
        if starts_with(t, "ungrouped:"@) {
            assert(t.subrange(0, 10)[0] == t[0]);
        }
    }
    if forall|k: int| 0 <= k < content.len() ==> content[k] != ':' {
        crate::text::lemma_ws_prefix_end(content, 0);
        assert forall|k: int| 0 <= k < t.len() implies t[k] != ':' by {
            assert(t[k] == content[k + crate::text::ws_prefix_end(content, 0)]);
        }
        if starts_with(t, "all:"@) {
            assert(t.subrange(0, 4)[3] == t[3]);
        }
        if starts_with(t, "ungrouped:"@) {
            assert(t.subrange(0, 10)[9] == t[9]);
        }
        if contains_seq(t, ":"@) {
            let i = choose|i: int| crate::text::occurs_at(t, ":"@, i);
            assert(t.subrange(i, i + 1)[0] == t[i]);
        }
    }
}

} // verus!
