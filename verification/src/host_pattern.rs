//! Expansion of Ansible host range patterns such as `web[01:05]` or `db-[a:c]`.
use vstd::prelude::*;

use crate::canonicalize::strs;
use crate::decimal::{
    dec, lemma_dec_len, lemma_digits_value_bound, parse_u32, pow10, push_padded_decimal,
    spec_parse_u32, unsigned_digits, zero_pad, all_digits, digits_value,
};
use crate::text::{
    chars_of, extend_chars, find_char, find_char_from, find_char_from_exec,
    is_ascii_alpha, is_digit, lemma_find_char_from_bounds, slice_vec, string_of,
};

verus! {

/// The text that replaces a range in one expansion: a number zero-padded to
/// the width of the range's start, or a single letter.
pub open spec fn range_item(numeric: bool, width: nat, i: int) -> Seq<char> {
    if numeric {
        zero_pad(dec(i as nat), width)
    } else {
        seq![((i as u8) as char)]
    }
}

/// The expansions of `prefix item(i) suffix` for `i` from `i` to `end`, in order.
pub open spec fn expand_range(
    prefix: Seq<char>,
    suffix: Seq<char>,
    numeric: bool,
    width: nat,
    elen: nat,
    i: int,
    end: int,
) -> Seq<Seq<char>>
    decreases prefix.len() + suffix.len() + width + elen + 3, if i <= end { end + 1 - i } else { 0 },
    when range_ok(numeric, width, elen, i, end)
{
    if i > end {
        Seq::empty()
    } else {
        proof {
            if numeric {
                lemma_dec_len(i as nat, elen);
            }
        }
        spec_expand(prefix + range_item(numeric, width, i) + suffix) + expand_range(
            prefix,
            suffix,
            numeric,
            width,
            elen,
            i + 1,
            end,
        )
    }
}

/// The bounds of a range that expansion can take: numbers below `10^elen`,
/// or ASCII letters.
pub open spec fn range_ok(numeric: bool, width: nat, elen: nat, i: int, end: int) -> bool {
    if numeric {
        0 <= i && end < pow10(elen) && elen >= 1
    } else {
        width == 1 && elen == 1 && 0 <= i && end < 128
    }
}

/// The host names a pattern stands for. The first `[` and the first `]`
/// after it delimit a range `start:end`; when both ends parse as `u32`, each
/// number from start to end, zero-padded to the width of `start`, replaces
/// the range; when both are single ASCII letters, each character from start
/// to end does. Each replacement is expanded again, for the ranges that
/// follow. Any other pattern stands for itself.
pub open spec fn spec_expand(p: Seq<char>) -> Seq<Seq<char>>
    decreases p.len(), 0x2_0000_0000int,
{
    match find_char(p, '[') {
        None => seq![p],
        Some(bs) => match find_char_from(p, ']', bs) {
            None => seq![p],
            Some(be) => {
                proof {
                    lemma_find_char_from_bounds(p, '[', 0);
                    lemma_find_char_from_bounds(p, ']', bs);
                }
                let range = p.subrange(bs + 1, be);
                match find_char(range, ':') {
                    None => seq![p],
                    Some(c) => {
                        proof {
                            lemma_find_char_from_bounds(range, ':', 0);
                        }
                        let s = range.take(c);
                        let e = range.skip(c + 1);
                        let prefix = p.take(bs);
                        let suffix = p.skip(be + 1);
                        if spec_parse_u32(s) is Some && spec_parse_u32(e) is Some {
                            expand_range(
                                prefix,
                                suffix,
                                true,
                                s.len(),
                                e.len(),
                                spec_parse_u32(s).unwrap() as int,
                                spec_parse_u32(e).unwrap() as int,
                            )
                        } else if s.len() == 1 && e.len() == 1 && is_ascii_alpha(s[0])
                            && is_ascii_alpha(e[0]) {
                            expand_range(prefix, suffix, false, 1, 1, s[0] as int, e[0] as int)
                        } else {
                            seq![p]
                        }
                    },
                }
            },
        },
    }
}

proof fn lemma_pow10_mono(a: nat, b: nat)
    requires
        a <= b,
    ensures
        pow10(a) <= pow10(b),
    decreases b,
{
    if a < b {
        lemma_pow10_mono(a, (b - 1) as nat);
    }
}

/// A parsed `u32` is below `10` to the power of the length of its text.
proof fn lemma_parse_bound(e: Seq<char>)
    requires
        spec_parse_u32(e) is Some,
    ensures
        (spec_parse_u32(e).unwrap() as nat) < pow10(e.len()),
        e.len() >= 1,
{
    let d = unsigned_digits(e);
    lemma_digits_value_bound(d);
    lemma_pow10_mono(d.len(), e.len());
}

/// Expands a host range pattern into the host names it stands for.
pub fn expand_host_pattern(pattern: &str) -> (r: Vec<String>)
    ensures
        strs(r@) == spec_expand(pattern@),
{
    let p = chars_of(pattern);
    expand_chars(&p)
}

fn expand_chars(p: &Vec<char>) -> (r: Vec<String>)
    ensures
        strs(r@) == spec_expand(p@),
    decreases p@.len(), 1int,
{
    let bs = match find_char_from_exec(p, '[', 0) {
        Some(bs) => bs,
        None => {
            return single_host(p);
        },
    };
    let be = match find_char_from_exec(p, ']', bs) {
        Some(be) => be,
        None => {
            return single_host(p);
        },
    };
    proof {
        lemma_find_char_from_bounds(p@, '[', 0);
        lemma_find_char_from_bounds(p@, ']', bs as int);
    }
    assert(be < p.len());
    let range = slice_vec(p, bs + 1, be);
    let c = match find_char_from_exec(&range, ':', 0) {
        Some(c) => c,
        None => {
            return single_host(p);
        },
    };
    proof {
        lemma_find_char_from_bounds(range@, ':', 0);
    }
    let s = slice_vec(&range, 0, c);
    let e = slice_vec(&range, c + 1, range.len());
    assert(s@ == range@.take(c as int));
    assert(e@ == range@.skip(c + 1));
    let prefix = slice_vec(p, 0, bs);
    let suffix = slice_vec(p, be + 1, p.len());
    assert(prefix@ == p@.take(bs as int));
    assert(suffix@ == p@.skip(be + 1));
    assert(p@.len() == prefix@.len() + suffix@.len() + s@.len() + e@.len() + 3);
    let ps = parse_u32(&s);
    let pe = parse_u32(&e);
    if let (Some(a), Some(b)) = (ps, pe) {
        proof {
            lemma_parse_bound(e@);
            lemma_parse_bound(s@);
        }
        return expand_range_exec(&prefix, &suffix, true, s.len(), e.len(), a, b);
    }
    if s.len() == 1 && e.len() == 1 && (('a' <= s[0] && s[0] <= 'z') || ('A' <= s[0] && s[0] <= 'Z'))
        && (('a' <= e[0] && e[0] <= 'z') || ('A' <= e[0] && e[0] <= 'Z')) {
        let a = s[0] as u32;
        let b = e[0] as u32;
        return expand_range_exec(&prefix, &suffix, false, 1, 1, a, b);
    }
    single_host(p)
}

/// The pattern itself, as the only host.
fn single_host(p: &Vec<char>) -> (v: Vec<String>)
    ensures
        strs(v@) == seq![p@],
{
    let mut v: Vec<String> = Vec::new();
    v.push(string_of(p));
    assert(strs(v@) =~= seq![p@]);
    v
}

fn expand_range_exec(
    prefix: &Vec<char>,
    suffix: &Vec<char>,
    numeric: bool,
    width: usize,
    elen: usize,
    start: u32,
    end: u32,
) -> (r: Vec<String>)
    requires
        range_ok(numeric, width as nat, elen as nat, start as int, end as int),
    ensures
        strs(r@) == expand_range(
            prefix@,
            suffix@,
            numeric,
            width as nat,
            elen as nat,
            start as int,
            end as int,
        ),
    decreases prefix@.len() + suffix@.len() + width + elen + 3, 0int,
{
    let mut out: Vec<String> = Vec::new();
    if start > end {
        assert(strs(out@) =~= Seq::<Seq<char>>::empty());
        return out;
    }
    let mut i: u64 = start as u64;
    while i <= end as u64
        invariant
            start <= i <= end as u64 + 1,
            range_ok(numeric, width as nat, elen as nat, start as int, end as int),
            expand_range(prefix@, suffix@, numeric, width as nat, elen as nat, start as int, end as int)
                == strs(out@) + expand_range(
                prefix@,
                suffix@,
                numeric,
                width as nat,
                elen as nat,
                i as int,
                end as int,
            ),
        decreases end as u64 + 1 - i,
    {
        let mut cand: Vec<char> = Vec::new();
        extend_chars(&mut cand, prefix);
        let mut item = String::new();
        if numeric {
            push_padded_decimal(&mut item, i as u32, width);
        } else {
            crate::text::push_char(&mut item, ((i as u8) as char));
            assert(item@ =~= seq![((i as u8) as char)]);
        }
        let item_chars = chars_of(item.as_str());
        extend_chars(&mut cand, &item_chars);
        extend_chars(&mut cand, suffix);
        proof {
            if numeric {
                lemma_dec_len(i as nat, elen as nat);
            }
        }
        assert(cand@ == prefix@ + range_item(numeric, width as nat, i as int) + suffix@);
        let sub = expand_chars(&cand);
        let ghost before = strs(out@);
        let mut k: usize = 0;
        while k < sub.len()
            invariant
                0 <= k <= sub@.len(),
                strs(out@) == before + strs(sub@).take(k as int),
            decreases sub.len() - k,
        {
            let ghost prev = strs(out@);
            out.push(crate::text::clone_string(&sub[k]));
            assert(strs(out@) =~= prev.push(sub@[k as int]@));
            assert(strs(sub@).take(k + 1) =~= strs(sub@).take(k as int).push(sub@[k as int]@));
            assert(strs(out@) =~= before + strs(sub@).take(k + 1));
            k += 1;
        }
        assert(strs(sub@).take(sub@.len() as int) =~= strs(sub@));
        assert(strs(out@) + expand_range(prefix@, suffix@, numeric, width as nat, elen as nat, i + 1, end as int)
            =~= before + expand_range(prefix@, suffix@, numeric, width as nat, elen as nat, i as int, end as int));
        i += 1;
    }
    assert(strs(out@) =~= strs(out@) + Seq::<Seq<char>>::empty());
    out
}

/// No `[` in `x`.
pub open spec fn no_open_bracket(x: Seq<char>) -> bool {
    forall|k: int| 0 <= k < x.len() ==> x[k] != '['
}

/// A numeral holds digits only.
proof fn lemma_dec_digits(n: nat)
    ensures
        all_digits(dec(n)),
    decreases n,
{
    if n >= 10 {
        lemma_dec_digits(n / 10);
        let d = dec(n / 10);
        assert forall|i: int| 0 <= i < dec(n).len() implies is_digit(#[trigger] dec(n)[i]) by {
            if i < d.len() {
                assert(dec(n)[i] == d[i]);
            }
        }
    }
}

/// A zero-padded numeral holds digits only.
proof fn lemma_padded_digits(n: nat, width: nat)
    ensures
        all_digits(zero_pad(dec(n), width)),
{
    lemma_dec_digits(n);
    let d = dec(n);
    let z = zero_pad(d, width);
    if d.len() < width {
        let pad = Seq::new((width - d.len()) as nat, |i: int| '0');
        assert forall|i: int| 0 <= i < z.len() implies is_digit(#[trigger] z[i]) by {
            if i < pad.len() {
                assert(z[i] == pad[i]);
            } else {
                assert(z[i] == d[i - pad.len()]);
            }
        }
    }
}

/// A pattern without `[` stands for itself.
proof fn lemma_expand_plain(x: Seq<char>)
    requires
        no_open_bracket(x),
    ensures
        spec_expand(x) == seq![x],
{
    lemma_find_char_from_bounds(x, '[', 0);
}

/// The hosts of a numeric range whose prefix and suffix hold no `[`: one per
/// number from `i` to `end`, in order.
proof fn lemma_numeric_range_hosts(prefix: Seq<char>, suffix: Seq<char>, width: nat, elen: nat, i: int, end: int)
    requires
        no_open_bracket(prefix),
        no_open_bracket(suffix),
        range_ok(true, width, elen, i, end),
    ensures
        expand_range(prefix, suffix, true, width, elen, i, end).len() == if i <= end { end - i + 1 } else { 0 },
        forall|k: int| 0 <= k < expand_range(prefix, suffix, true, width, elen, i, end).len() ==> #[trigger] expand_range(prefix, suffix, true, width, elen, i, end)[k]
            == prefix + zero_pad(dec((i + k) as nat), width) + suffix,
    decreases if i <= end { end + 1 - i } else { 0 },
{
    if i <= end {
        lemma_numeric_range_hosts(prefix, suffix, width, elen, i + 1, end);
        let item = prefix + zero_pad(dec(i as nat), width) + suffix;
        lemma_padded_digits(i as nat, width);
        assert(no_open_bracket(item)) by {
            let z = zero_pad(dec(i as nat), width);
            assert forall|k: int| 0 <= k < item.len() implies item[k] != '[' by {
                if k < prefix.len() {
                    assert(item[k] == prefix[k]);
                } else if k < prefix.len() + z.len() {
                    assert(item[k] == z[k - prefix.len()]);
                    assert(is_digit(z[k - prefix.len()]));
                } else {
                    assert(item[k] == suffix[k - prefix.len() - z.len()]);
                }
            }
        }
        lemma_expand_plain(item);
        let rest = expand_range(prefix, suffix, true, width, elen, i + 1, end);
        assert(expand_range(prefix, suffix, true, width, elen, i, end) == seq![item] + rest);
        assert forall|k: int| 0 <= k < (seq![item] + rest).len() implies #[trigger] (seq![item] + rest)[k]
            == prefix + zero_pad(dec((i + k) as nat), width) + suffix by {
            if k > 0 {
                assert((seq![item] + rest)[k] == rest[k - 1]);
                assert(i + 1 + (k - 1) == i + k);
            }
        }
    }
}

/// A pattern `prefix[start:end]suffix` whose prefix and suffix hold no `[`
/// and whose start and end are decimal numbers of `u32` stands for one host
/// per number from start to end, in order: the prefix, the number zero-padded
/// to the width of start, and the suffix. A range that runs backwards stands
/// for no host.
pub proof fn law_numeric_host_range(prefix: Seq<char>, start: Seq<char>, end: Seq<char>, suffix: Seq<char>)
    requires
        no_open_bracket(prefix),
        no_open_bracket(suffix),
        start.len() > 0 && all_digits(start) && digits_value(start) <= u32::MAX,
        end.len() > 0 && all_digits(end) && digits_value(end) <= u32::MAX,
    ensures
        ({
            let r = spec_expand(prefix + "["@ + start + ":"@ + end + "]"@ + suffix);
            let a = digits_value(start) as int;
            let b = digits_value(end) as int;
            &&& r.len() == if a <= b { b - a + 1 } else { 0 }
            &&& forall|k: int| 0 <= k < r.len() ==> #[trigger] r[k] == prefix + zero_pad(dec((a + k) as nat), start.len())
                + suffix
        }),
{
    reveal_strlit("[");
    reveal_strlit(":");
    reveal_strlit("]");
    let p = prefix + "["@ + start + ":"@ + end + "]"@ + suffix;
    let bs = prefix.len() as int;
    let be = bs + 1 + start.len() + 1 + end.len();
    assert(p[bs] == '[');
    assert(p[be] == ']');
    lemma_find_char_from_bounds(p, '[', 0);
    assert(find_char(p, '[') == Some(bs)) by {
        if find_char(p, '[') is None {
            assert(p[bs] != '[');
        } else {
            let j = find_char(p, '[')->Some_0;
            if j < bs {
                assert(p[j] == prefix[j]);
            }
        }
    }
    lemma_find_char_from_bounds(p, ']', bs);
    assert(find_char_from(p, ']', bs) == Some(be)) by {
        if find_char_from(p, ']', bs) is None {
            assert(p[be] != ']');
        } else {
            let j = find_char_from(p, ']', bs)->Some_0;
            if j < be {
                if bs < j < bs + 1 + start.len() {
                    assert(p[j] == start[j - bs - 1]);
                    assert(is_digit(start[j - bs - 1]));
                } else if bs + 1 + start.len() < j {
                    assert(p[j] == end[j - bs - 2 - start.len()]);
                    assert(is_digit(end[j - bs - 2 - start.len()]));
                }
            }
        }
    }
    let range = p.subrange(bs + 1, be);
    assert(range =~= start + ":"@ + end);
    let c = start.len() as int;
    lemma_find_char_from_bounds(range, ':', 0);
    assert(find_char(range, ':') == Some(c)) by {
        assert(range[c] == ':');
        if find_char(range, ':') is None {
        } else {
            let j = find_char(range, ':')->Some_0;
            if j < c {
                assert(range[j] == start[j]);
                assert(is_digit(start[j]));
            }
        }
    }
    assert(range.take(c) =~= start);
    assert(range.skip(c + 1) =~= end);
    assert(p.take(bs) =~= prefix);
    assert(p.skip(be + 1) =~= suffix);
    assert(unsigned_digits(start) == start) by {
        assert(is_digit(start[0]));
    }
    assert(unsigned_digits(end) == end) by {
        assert(is_digit(end[0]));
    }
    lemma_parse_bound(end);
    lemma_numeric_range_hosts(
        prefix,
        suffix,
        start.len(),
        end.len(),
        digits_value(start) as int,
        digits_value(end) as int,
    );
}

/// The hosts of a range of lowercase letters whose prefix and suffix hold no
/// `[`: one per letter from `i` to `end`, in order.
proof fn lemma_letter_range_hosts(prefix: Seq<char>, suffix: Seq<char>, i: int, end: int)
    requires
        no_open_bracket(prefix),
        no_open_bracket(suffix),
        'a' as int <= i,
        end <= 'z' as int,
    ensures
        expand_range(prefix, suffix, false, 1, 1, i, end).len() == if i <= end { end - i + 1 } else { 0 },
        forall|k: int| 0 <= k < expand_range(prefix, suffix, false, 1, 1, i, end).len() ==> #[trigger] expand_range(prefix, suffix, false, 1, 1, i, end)[k]
            == prefix + seq![(((i + k) as u8) as char)] + suffix,
    decreases if i <= end { end + 1 - i } else { 0 },
{
    if i <= end {
        lemma_letter_range_hosts(prefix, suffix, i + 1, end);
        let ch = ((i as u8) as char);
        let item = prefix + seq![ch] + suffix;
        assert(no_open_bracket(item)) by {
            assert forall|k: int| 0 <= k < item.len() implies item[k] != '[' by {
                if k < prefix.len() {
                    assert(item[k] == prefix[k]);
                } else if k == prefix.len() {
                    assert(item[k] == ch);
                } else {
                    assert(item[k] == suffix[k - prefix.len() - 1]);
                }
            }
        }
        lemma_expand_plain(item);
        let rest = expand_range(prefix, suffix, false, 1, 1, i + 1, end);
        assert(range_item(false, 1, i) == seq![ch]);
        assert(expand_range(prefix, suffix, false, 1, 1, i, end) == seq![item] + rest);
        assert forall|k: int| 0 <= k < (seq![item] + rest).len() implies #[trigger] (seq![item] + rest)[k]
            == prefix + seq![(((i + k) as u8) as char)] + suffix by {
            if k > 0 {
                assert((seq![item] + rest)[k] == rest[k - 1]);
                assert(i + 1 + (k - 1) == i + k);
            }
        }
    }
}

/// A pattern `prefix[x:y]suffix` whose prefix and suffix hold no `[` and
/// whose ends are lowercase letters stands for one host per letter from `x`
/// to `y`, in order: the prefix, the letter and the suffix. A range that runs
/// backwards stands for no host.
pub proof fn law_letter_host_range(prefix: Seq<char>, x: char, y: char, suffix: Seq<char>)
    requires
        no_open_bracket(prefix),
        no_open_bracket(suffix),
        'a' <= x <= 'z',
        'a' <= y <= 'z',
    ensures
        ({
            let r = spec_expand(prefix + "["@ + seq![x] + ":"@ + seq![y] + "]"@ + suffix);
            &&& r.len() == if x <= y { y as int - x as int + 1 } else { 0 }
            &&& forall|k: int| 0 <= k < r.len() ==> #[trigger] r[k] == prefix + seq![(((x as int + k) as u8) as char)] + suffix
        }),
{
    reveal_strlit("[");
    reveal_strlit(":");
    reveal_strlit("]");
    let p = prefix + "["@ + seq![x] + ":"@ + seq![y] + "]"@ + suffix;
    let bs = prefix.len() as int;
    let be = bs + 4;
    assert(p[bs] == '[');
    assert(p[bs + 1] == x);
    assert(p[bs + 2] == ':');
    assert(p[bs + 3] == y);
    assert(p[be] == ']');
    lemma_find_char_from_bounds(p, '[', 0);
    assert(find_char(p, '[') == Some(bs)) by {
        if find_char(p, '[') is None {
            assert(p[bs] != '[');
        } else {
            let j = find_char(p, '[')->Some_0;
            if j < bs {
                assert(p[j] == prefix[j]);
            }
        }
    }
    lemma_find_char_from_bounds(p, ']', bs);
    assert(find_char_from(p, ']', bs) == Some(be)) by {
        if find_char_from(p, ']', bs) is None {
            assert(p[be] != ']');
        }
    }
    let range = p.subrange(bs + 1, be);
    assert(range =~= seq![x, ':', y]);
    lemma_find_char_from_bounds(range, ':', 0);
    assert(find_char(range, ':') == Some(1int)) by {
        assert(range[1] == ':');
        assert(range[0] == x);
    }
    assert(range.take(1) =~= seq![x]);
    assert(range.skip(2) =~= seq![y]);
    assert(p.take(bs) =~= prefix);
    assert(p.skip(be + 1) =~= suffix);
    assert(spec_parse_u32(seq![x]) is None) by {
        assert(unsigned_digits(seq![x]) =~= seq![x]);
        assert(!is_digit(seq![x][0]));
    }
    assert(is_ascii_alpha(x) && is_ascii_alpha(y));
    lemma_letter_range_hosts(prefix, suffix, x as int, y as int);
}

} // verus!
