use vstd::prelude::*;

verus! {

pub open spec fn strictly_increasing(s: Seq<i32>) -> bool {
    forall|i: int, j: int| 0 <= i < j < s.len() ==> #[trigger] s[i] < #[trigger] s[j]
}

/// Relies on `slice::sort_unstable`: the same elements, in ascending order.
#[verifier::external_body]
fn sort_ids(v: &mut Vec<i32>)
    ensures
        final(v)@.to_multiset() == old(v)@.to_multiset(),
        forall|i: int, j: int| 0 <= i < j < final(v)@.len() ==> #[trigger] final(v)@[i] <= #[trigger] final(v)@[j],
{
    v.sort_unstable()
}

/// The distinct source ids of `ids`, ascending.
pub fn unique_source_ids(ids: Vec<i32>) -> (r: Vec<i32>)
    ensures
        strictly_increasing(r@),
        forall|x: i32| r@.contains(x) <==> ids@.contains(x),
{
    let ghost unsorted = ids@;
    let mut v = ids;
    sort_ids(&mut v);
    proof {
        assert(v@.to_multiset() == unsorted.to_multiset());
        assert forall|x: i32| v@.contains(x) <==> unsorted.contains(x) by {
            v@.to_multiset_ensures();
            unsorted.to_multiset_ensures();
            assert(v@.to_multiset().count(x) == unsorted.to_multiset().count(x));
        }
    }
    let mut out: Vec<i32> = Vec::new();
    let mut i: usize = 0;
    while i < v.len()
        invariant
            0 <= i <= v@.len(),
            forall|a: int, b: int| 0 <= a < b < v@.len() ==> #[trigger] v@[a] <= #[trigger] v@[b],
            strictly_increasing(out@),
            i > 0 ==> out@.len() > 0 && out@.last() == v@[i - 1],
            i == 0 ==> out@.len() == 0,
            forall|k: int| 0 <= k < i ==> out@.contains(#[trigger] v@[k]),
            forall|x: i32| out@.contains(x) ==> exists|k: int| 0 <= k < i && #[trigger] v@[k] == x,
        decreases v@.len() - i,
    {
        let x = v[i];
        let ghost prev = out@;
        if out.len() == 0 || out[out.len() - 1] != x {
            out.push(x);
            proof {
                assert forall|a: int, b: int| 0 <= a < b < out@.len() implies #[trigger] out@[a] < #[trigger] out@[b] by {
                    if b == out@.len() - 1 && a < prev.len() {
                        assert(prev[a] <= prev.last());
                        assert(v@[i - 1] <= v@[i as int]);
                    }
                }
                assert forall|k: int| 0 <= k < i + 1 implies out@.contains(#[trigger] v@[k]) by {
                    if k < i {
                        let z = choose|z: int| 0 <= z < prev.len() && prev[z] == v@[k];
                        assert(out@[z] == v@[k]);
                    } else {
                        assert(out@[out@.len() - 1] == v@[k]);
                    }
                }
                assert forall|y: i32| out@.contains(y) implies exists|k: int| 0 <= k < i + 1 && #[trigger] v@[k] == y by {
                    let z = choose|z: int| 0 <= z < out@.len() && out@[z] == y;
                    if z < prev.len() {
                        assert(prev[z] == y);
                        assert(prev.contains(y));
                    } else {
                        assert(v@[i as int] == y);
                    }
                }
            }
        } else {
            proof {
                assert forall|k: int| 0 <= k < i + 1 implies out@.contains(#[trigger] v@[k]) by {
                    if k == i {
                        assert(out@[out@.len() - 1] == v@[k]);
                    }
                }
            }
        }
        i = i + 1;
    }
    proof {
        assert forall|x: i32| out@.contains(x) <==> v@.contains(x) by {
            if v@.contains(x) {
                let k = choose|k: int| 0 <= k < v@.len() && v@[k] == x;
                assert(out@.contains(v@[k]));
            }
            if out@.contains(x) {
                let k = choose|k: int| 0 <= k < v@.len() && #[trigger] v@[k] == x;
                assert(v@[k] == x);
            }
        }
    }
    out
}

pub open spec fn effective_max_match_spec(requested: Option<i32>, default_limit: u64) -> u64 {
    match requested {
        Some(n) => if n > 0 { n as u64 } else { 0 },
        None => default_limit,
    }
}

/// The match quota of a stream: the requested one (a non-positive request
/// means no quota), else the configured default.
pub fn effective_max_match(requested: Option<i32>, default_limit: u64) -> (r: u64)
    ensures
        r == effective_max_match_spec(requested, default_limit),
        requested is None ==> r == default_limit,
        requested matches Some(n) ==> (n > 0 ==> r == n as u64) && (n <= 0 ==> r == 0),
{
    match requested {
        Some(n) => if n > 0 { n as u64 } else { 0 },
        None => default_limit,
    }
}

/// The pieces of `s` between the separators `c`, in order, as
/// `str::split` yields them (an empty `s` gives one empty piece).
pub open spec fn split_on(s: Seq<char>, c: char) -> Seq<Seq<char>>
    decreases s.len(),
{
    if s.len() == 0 {
        seq![Seq::empty()]
    } else {
        let p = split_on(s.drop_last(), c);
        if s.last() == c {
            p.push(Seq::empty())
        } else {
            p.update(p.len() - 1, p.last().push(s.last()))
        }
    }
}

/// `char::is_whitespace`: the Unicode `White_Space` characters.
pub open spec fn is_white(c: char) -> bool {
    let v = c as int;
    ||| 9 <= v <= 13
    ||| v == 0x20 || v == 0x85 || v == 0xA0 || v == 0x1680
    ||| 0x2000 <= v <= 0x200A
    ||| v == 0x2028 || v == 0x2029 || v == 0x202F || v == 0x205F || v == 0x3000
}

pub open spec fn trim_start(s: Seq<char>) -> Seq<char>
    decreases s.len(),
{
    if s.len() > 0 && is_white(s[0]) {
        trim_start(s.drop_first())
    } else {
        s
    }
}

pub open spec fn trim_end(s: Seq<char>) -> Seq<char>
    decreases s.len(),
{
    if s.len() > 0 && is_white(s.last()) {
        trim_end(s.drop_last())
    } else {
        s
    }
}

/// `s` without leading and trailing whitespace.
pub open spec fn trim_of(s: Seq<char>) -> Seq<char> {
    trim_end(trim_start(s))
}

pub open spec fn is_digit(c: char) -> bool {
    48 <= c as int <= 57
}

/// Value of a string of decimal digits.
pub open spec fn digits_value(d: Seq<char>) -> int
    decreases d.len(),
{
    if d.len() == 0 {
        0
    } else {
        digits_value(d.drop_last()) * 10 + (d.last() as int - 48)
    }
}

/// Decimal reading of `s` as `i64::from_str` does it: an optional `+` or
/// `-`, then at least one ASCII digit and nothing else, the value within
/// range; `None` otherwise.
pub open spec fn parse_i64_of(s: Seq<char>) -> Option<i64> {
    let neg = s.len() > 0 && s[0] == '-';
    let signed = s.len() > 0 && (s[0] == '-' || s[0] == '+');
    let d = if signed { s.drop_first() } else { s };
    let v = if neg { -digits_value(d) } else { digits_value(d) };
    if d.len() == 0 || !(forall|i: int| 0 <= i < d.len() ==> is_digit(#[trigger] d[i])) {
        None
    } else if i64::MIN <= v <= i64::MAX {
        Some(v as i64)
    } else {
        None
    }
}

/// Relies on `str::split`: the pieces between the separators, in order.
#[verifier::external_body]
pub(crate) fn split_by(s: &str, c: char) -> (r: Vec<String>)
    ensures
        r@.len() == split_on(s@, c).len(),
        forall|i: int| 0 <= i < r@.len() ==> #[trigger] r@[i]@ == split_on(s@, c)[i],
{
    s.split(c).map(|p| p.to_string()).collect()
}

/// Relies on `str::trim`: the string without leading and trailing
/// `char::is_whitespace` characters.
#[verifier::external_body]
fn trim_str(s: &str) -> (r: &str)
    ensures
        r@ == trim_of(s@),
{
    s.trim()
}

/// Relies on `str::parse::<i64>` (`i64::from_str`): optional sign, decimal
/// digits, overflow an error.
#[verifier::external_body]
fn parse_i64(s: &str) -> (r: Option<i64>)
    ensures
        r == parse_i64_of(s@),
{
    s.parse::<i64>().ok()
}

/// Parse results of the non-blank pieces among the first `n` of `pieces`.
pub open spec fn parsed_pieces(pieces: Seq<Seq<char>>, n: nat) -> Seq<Option<i64>>
    decreases n,
{
    if n == 0 {
        Seq::empty()
    } else {
        let p = parsed_pieces(pieces, (n - 1) as nat);
        let t = trim_of(pieces[n - 1]);
        if t.len() == 0 { p } else { p.push(parse_i64_of(t)) }
    }
}

pub open spec fn all_parsed(ps: Seq<Option<i64>>) -> bool {
    forall|i: int| 0 <= i < ps.len() ==> #[trigger] ps[i] is Some
}

/// The ids filter that a comma-separated list asks for: none when the
/// list is blank or one of its non-blank pieces is not an integer.
pub open spec fn interest_ids_spec(raw: Seq<char>) -> Option<Seq<i64>> {
    let ps = parsed_pieces(split_on(raw, ','), split_on(raw, ',').len());
    if trim_of(raw).len() == 0 || !all_parsed(ps) {
        None
    } else {
        Some(ps.map_values(|o: Option<i64>| o.unwrap()))
    }
}

/// All the values when every piece parsed, else `None`.
pub fn collect_ids(parsed: &Vec<Option<i64>>) -> (r: Option<Vec<i64>>)
    ensures
        r is None <==> !all_parsed(parsed@),
        r matches Some(v) ==> v@ == parsed@.map_values(|o: Option<i64>| o.unwrap()),
{
    let mut out: Vec<i64> = Vec::new();
    let mut i: usize = 0;
    while i < parsed.len()
        invariant
            0 <= i <= parsed@.len(),
            all_parsed(parsed@.take(i as int)),
            out@ == parsed@.take(i as int).map_values(|o: Option<i64>| o.unwrap()),
        decreases parsed@.len() - i,
    {
        match parsed[i] {
            Some(x) => {
                out.push(x);
                proof {
                    assert(parsed@.take(i as int + 1) =~= parsed@.take(i as int).push(Some(x)));
                    assert(out@ =~= parsed@.take(i as int + 1).map_values(|o: Option<i64>| o.unwrap()));
                }
            },
            None => {
                proof {
                    assert(!(parsed@[i as int] is Some));
                }
                return None;
            },
        }
        i = i + 1;
    }
    proof {
        assert(parsed@.take(parsed@.len() as int) =~= parsed@);
    }
    Some(out)
}

/// Parses a comma-separated list of interest ids ("1, 2,3"): blank
/// pieces are skipped; a blank list, or any piece that is not an
/// integer, gives `None` (no filter).
pub fn parse_interest_ids(raw: &str) -> (r: Option<Vec<i64>>)
    ensures
        r is None <==> interest_ids_spec(raw@) is None,
        r matches Some(v) ==> interest_ids_spec(raw@) == Some(v@),
{
    let whole = trim_str(raw);
    let pieces = split_by(raw, ',');
    let ghost sp = split_on(raw@, ',');
    let mut parsed: Vec<Option<i64>> = Vec::new();
    let mut i: usize = 0;
    while i < pieces.len()
        invariant
            0 <= i <= pieces@.len(),
            pieces@.len() == sp.len(),
            forall|k: int| 0 <= k < pieces@.len() ==> #[trigger] pieces@[k]@ == sp[k],
            parsed@ == parsed_pieces(sp, i as nat),
        decreases pieces@.len() - i,
    {
        let t = trim_str(pieces[i].as_str());
        if !t.is_empty() {
            parsed.push(parse_i64(t));
        }
        i = i + 1;
    }
    if whole.is_empty() {
        return None;
    }
    collect_ids(&parsed)
}

} // verus!
