use crate::model::{DestinationChannel, EngineError};
use vstd::prelude::*;

verus! {

/// The Unicode `White_Space` characters.
pub open spec fn is_blank(c: char) -> bool {
    let u = c as u32;
    (9 <= u && u <= 13) || u == 32 || u == 0x85 || u == 0xa0 || u == 0x1680 || (0x2000 <= u && u
        <= 0x200a) || u == 0x2028 || u == 0x2029 || u == 0x202f || u == 0x205f || u == 0x3000
}

pub open spec fn trim_start(s: Seq<char>) -> Seq<char>
    decreases s.len(),
{
    if s.len() > 0 && is_blank(s[0]) {
        trim_start(s.drop_first())
    } else {
        s
    }
}

pub open spec fn trim_end(s: Seq<char>) -> Seq<char>
    decreases s.len(),
{
    if s.len() > 0 && is_blank(s.last()) {
        trim_end(s.drop_last())
    } else {
        s
    }
}

/// `s` without leading and trailing white space.
pub open spec fn trim(s: Seq<char>) -> Seq<char> {
    trim_end(trim_start(s))
}

/// The pieces of `s` between commas; `s` without a comma is one piece.
pub open spec fn split_commas(s: Seq<char>) -> Seq<Seq<char>>
    decreases s.len(),
{
    if s.len() == 0 {
        seq![Seq::empty()]
    } else {
        let p = split_commas(s.drop_last());
        if s.last() == ',' {
            p.push(Seq::empty())
        } else {
            p.update(p.len() - 1, p.last().push(s.last()))
        }
    }
}

/// The trimmed pieces, with the empty ones dropped.
pub open spec fn names_of(pieces: Seq<Seq<char>>) -> Seq<Seq<char>>
    decreases pieces.len(),
{
    if pieces.len() == 0 {
        Seq::empty()
    } else {
        let rest = names_of(pieces.drop_last());
        if trim(pieces.last()).len() > 0 {
            rest.push(trim(pieces.last()))
        } else {
            rest
        }
    }
}

/// The channel names of a comma-separated list: split at commas, trimmed,
/// empty entries dropped.
pub open spec fn channel_names(s: Seq<char>) -> Seq<Seq<char>> {
    names_of(split_commas(s))
}

proof fn lemma_split_nonempty(s: Seq<char>)
    ensures
        split_commas(s).len() >= 1,
    decreases s.len(),
{
    if s.len() > 0 {
        lemma_split_nonempty(s.drop_last());
    }
}

fn is_blank_char(c: char) -> (r: bool)
    ensures
        r == is_blank(c),
{
    let u = c as u32;
    (9 <= u && u <= 13) || u == 32 || u == 0x85 || u == 0xa0 || u == 0x1680 || (0x2000 <= u && u
        <= 0x200a) || u == 0x2028 || u == 0x2029 || u == 0x202f || u == 0x205f || u == 0x3000
}

/// The characters `from..to` of `s`, trimmed.
fn trimmed_piece(s: &str, from: usize, to: usize) -> (r: String)
    requires
        from <= to <= s@.len(),
    ensures
        r@ == trim(s@.subrange(from as int, to as int)),
{
    let mut a = from;
    while a < to && is_blank_char(s.get_char(a))
        invariant
            from <= a <= to <= s@.len(),
            trim_start(s@.subrange(from as int, to as int)) == trim_start(
                s@.subrange(a as int, to as int),
            ),
        decreases to - a,
    {
        assert(s@.subrange(a as int, to as int).drop_first() == s@.subrange(a + 1, to as int));
        a = a + 1;
    }
    assert(trim_start(s@.subrange(a as int, to as int)) == s@.subrange(a as int, to as int));
    let mut b = to;
    while b > a && is_blank_char(s.get_char(b - 1))
        invariant
            from <= a <= b <= to <= s@.len(),
            trim(s@.subrange(from as int, to as int)) == trim_end(s@.subrange(a as int, b as int)),
        decreases b - a,
    {
        assert(s@.subrange(a as int, b as int).drop_last() == s@.subrange(a as int, b - 1));
        b = b - 1;
    }
    String::from_str(s.substring_char(a, b))
}

/// Splits a comma-separated list of channel names, trims each entry and
/// drops the empty ones.
pub fn parse_channel_names(list: &str) -> (r: Vec<String>)
    ensures
        string_views(r@) == channel_names(list@),
{
    let n = list.unicode_len();
    let mut out: Vec<String> = Vec::new();
    let ghost mut pieces: Seq<Seq<char>> = Seq::empty();
    let mut start: usize = 0;
    let mut i: usize = 0;
    assert(list@.subrange(0, 0) =~= Seq::<char>::empty());
    while i < n
        invariant
            n == list@.len(),
            start <= i <= n,
            pieces.push(list@.subrange(start as int, i as int)) == split_commas(
                list@.subrange(0, i as int),
            ),
            out@.len() == names_of(pieces).len(),
            forall|m: int| 0 <= m < out@.len() ==> #[trigger] out@[m]@ == names_of(pieces)[m],
        decreases n - i,
    {
        let c = list.get_char(i);
        let ghost cur = list@.subrange(start as int, i as int);
        assert(list@.subrange(0, i + 1).drop_last() == list@.subrange(0, i as int));
        assert(list@.subrange(0, i + 1).last() == c);
        if c == ',' {
            let piece = trimmed_piece(list, start, i);
            proof {
                let np = pieces.push(cur);
                assert(np.drop_last() == pieces);
                assert(np.last() == cur);
                pieces = np;
                assert(list@.subrange(i + 1, i + 1) =~= Seq::<char>::empty());
            }
            if piece.unicode_len() > 0 {
                out.push(piece);
            }
            start = i + 1;
        } else {
            proof {
                let p = pieces.push(cur);
                assert(cur.push(c) =~= list@.subrange(start as int, i + 1));
                assert(p.update(p.len() - 1, p.last().push(c)) =~= pieces.push(
                    list@.subrange(start as int, i + 1),
                ));
            }
        }
        i = i + 1;
    }
    assert(list@.subrange(0, n as int) == list@);
    let piece = trimmed_piece(list, start, n);
    proof {
        let cur = list@.subrange(start as int, n as int);
        let np = pieces.push(cur);
        assert(np.drop_last() == pieces);
        assert(np.last() == cur);
    }
    if piece.unicode_len() > 0 {
        out.push(piece);
    }
    assert(string_views(out@) =~= channel_names(list@));
    out
}

/// Channel `i` of `channels` carries `name`.
pub open spec fn names_channel(channels: Seq<DestinationChannel>, name: Seq<char>, i: int) -> bool {
    0 <= i < channels.len() && channels[i].name@ == name
}

/// Channel `i` is the first of `channels` that carries `name`.
pub open spec fn is_first_named(channels: Seq<DestinationChannel>, name: Seq<char>, i: int) -> bool {
    &&& names_channel(channels, name, i)
    &&& forall|j: int| 0 <= j < i ==> channels[j].name@ != name
}

/// Some channel carries `name`.
pub open spec fn resolvable(channels: Seq<DestinationChannel>, name: Seq<char>) -> bool {
    exists|i: int| names_channel(channels, name, i)
}

/// Index of the first channel that carries `name`.
pub open spec fn first_named(channels: Seq<DestinationChannel>, name: Seq<char>) -> int {
    choose|i: int| is_first_named(channels, name, i)
}

/// The text of each string.
pub open spec fn string_views(v: Seq<String>) -> Seq<Seq<char>> {
    v.map_values(|s: String| s@)
}

/// Every name of `names` is carried by some channel.
pub open spec fn all_resolvable(names: Seq<Seq<char>>, channels: Seq<DestinationChannel>) -> bool {
    forall|m: int| 0 <= m < names.len() ==> resolvable(channels, #[trigger] names[m])
}

/// Name `m` is the first of `names` that no channel carries.
pub open spec fn is_first_unresolved(names: Seq<Seq<char>>, channels: Seq<DestinationChannel>, m: int) -> bool {
    &&& 0 <= m < names.len()
    &&& !resolvable(channels, names[m])
    &&& forall|l: int| 0 <= l < m ==> resolvable(channels, #[trigger] names[l])
}

/// The first channel carrying a name is the one `first_named` gives.
pub proof fn lemma_first_named_unique(channels: Seq<DestinationChannel>, name: Seq<char>, i: int)
    requires
        is_first_named(channels, name, i),
    ensures
        first_named(channels, name) == i,
{
    let f = first_named(channels, name);
    assert(is_first_named(channels, name, f));
    if f < i {
        assert(channels[f].name@ != name);
    } else if i < f {
        assert(channels[i].name@ != name);
    }
}

fn find_channel(channels: &Vec<DestinationChannel>, name: &String) -> (r: Option<usize>)
    ensures
        r is None <==> !resolvable(channels@, name@),
        r matches Some(i) ==> i == first_named(channels@, name@) && is_first_named(
            channels@,
            name@,
            i as int,
        ),
{
    let mut i: usize = 0;
    while i < channels.len()
        invariant
            i <= channels@.len(),
            forall|j: int| 0 <= j < i ==> channels@[j].name@ != name@,
        decreases channels@.len() - i,
    {
        if channels[i].name == *name {
            proof {
                lemma_first_named_unique(channels@, name@, i as int);
            }
            return Some(i);
        }
        i = i + 1;
    }
    None
}

/// Resolves each name to the first channel carrying it, in the order of
/// `names`; fails on the first name that no channel carries.
pub fn resolve_channels(names: &Vec<String>, channels: &Vec<DestinationChannel>) -> (r: Result<
    Vec<DestinationChannel>,
    EngineError,
>)
    ensures
        r is Ok <==> all_resolvable(string_views(names@), channels@),
        r matches Ok(out) ==> out@.len() == names@.len() && forall|m: int|
            0 <= m < names@.len() ==> #[trigger] out@[m] == channels@[first_named(
                channels@,
                names@[m]@,
            )],
        r matches Err(e) ==> exists|m: int|
            is_first_unresolved(string_views(names@), channels@, m) && e == EngineError::UnresolvedChannel(
                #[trigger] names@[m],
            ),
{
    let mut out: Vec<DestinationChannel> = Vec::new();
    let mut m: usize = 0;
    while m < names.len()
        invariant
            m <= names@.len(),
            out@.len() == m,
            forall|l: int| 0 <= l < m ==> resolvable(channels@, #[trigger] string_views(names@)[l]),
            forall|l: int|
                0 <= l < m ==> #[trigger] out@[l] == channels@[first_named(channels@, names@[l]@)],
        decreases names@.len() - m,
    {
        match find_channel(channels, &names[m]) {
            Some(i) => {
                out.push(channels[i].duplicate());
            },
            None => {
                let e = EngineError::UnresolvedChannel(names[m].clone());
                proof {
                    assert(is_first_unresolved(string_views(names@), channels@, m as int));
                }
                return Err(e);
            },
        }
        m = m + 1;
    }
    Ok(out)
}

} // verus!

verus! {

/// Name `m` already occurs before position `m`.
pub open spec fn repeats_earlier(names: Seq<Seq<char>>, m: int) -> bool {
    exists|l: int| 0 <= l < m && names[l] == names[m]
}

/// Some name occurs twice.
pub open spec fn has_repeat(names: Seq<Seq<char>>) -> bool {
    exists|m: int| 0 <= m < names.len() && #[trigger] repeats_earlier(names, m)
}

/// Position `m` holds the first repetition of a name.
pub open spec fn is_first_repeat(names: Seq<Seq<char>>, m: int) -> bool {
    &&& 0 <= m < names.len()
    &&& repeats_earlier(names, m)
    &&& forall|l: int| 0 <= l < m ==> !#[trigger] repeats_earlier(names, l)
}

/// Position of the first name that repeats an earlier one, if any.
pub fn first_repeated_name(names: &Vec<String>) -> (r: Option<usize>)
    ensures
        r is None <==> !has_repeat(string_views(names@)),
        r matches Some(m) ==> is_first_repeat(string_views(names@), m as int),
{
    let ghost v = string_views(names@);
    let mut m: usize = 0;
    while m < names.len()
        invariant
            m <= names@.len(),
            v == string_views(names@),
            v.len() == names@.len(),
            forall|p: int| 0 <= p < m ==> !#[trigger] repeats_earlier(v, p),
        decreases names@.len() - m,
    {
        let mut l: usize = 0;
        while l < m
            invariant
                l <= m < names@.len(),
                v == string_views(names@),
                v.len() == names@.len(),
                forall|p: int| 0 <= p < m ==> !#[trigger] repeats_earlier(v, p),
                forall|q: int| 0 <= q < l ==> v[q] != v[m as int],
            decreases m - l,
        {
            assert(v[l as int] == names@[l as int]@);
            assert(v[m as int] == names@[m as int]@);
            if names[l] == names[m] {
                assert(v[l as int] == names@[l as int]@);
                assert(v[m as int] == names@[m as int]@);
                assert(repeats_earlier(v, m as int));
                return Some(m);
            }
            l = l + 1;
        }
        m = m + 1;
    }
    None
}

} // verus!
