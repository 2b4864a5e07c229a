//! Line-level text helpers used to render the public interface.
use vstd::prelude::*;
use itertools::Itertools;

verus! {

/// The characters `pub `.
pub open spec fn pub_prefix() -> Seq<char> {
    seq!['p', 'u', 'b', ' ']
}

/// The line unchanged when it already starts with `pub `, else `pub ` followed by the line.
pub open spec fn spec_ensure_pub(line: Seq<char>) -> Seq<char> {
    if line.len() >= 4 && line.take(4) == pub_prefix() {
        line
    } else {
        pub_prefix() + line
    }
}

/// `parts` joined, with `sep` between each two neighbours.
pub open spec fn seq_join(parts: Seq<Seq<char>>, sep: Seq<char>) -> Seq<char>
    decreases parts.len(),
{
    if parts.len() == 0 {
        Seq::empty()
    } else if parts.len() == 1 {
        parts[0]
    } else {
        seq_join(parts.drop_last(), sep) + sep + parts.last()
    }
}

/// The views of a vector of strings.
pub open spec fn views(v: Seq<String>) -> Seq<Seq<char>> {
    v.map_values(|s: String| s@)
}

/// `needle` occurs in `hay` at position `i`.
pub open spec fn occurs_at(hay: Seq<char>, needle: Seq<char>, i: int) -> bool {
    0 <= i && i + needle.len() <= hay.len() && hay.subrange(i, i + needle.len()) == needle
}

/// The first position at or after `from` where `needle` occurs in `hay`.
pub open spec fn find_from(hay: Seq<char>, needle: Seq<char>, from: nat) -> Option<nat>
    decreases hay.len() + 1 - from,
{
    if from + needle.len() > hay.len() {
        None
    } else if hay.subrange(from as int, (from + needle.len()) as int) == needle {
        Some(from)
    } else {
        find_from(hay, needle, from + 1)
    }
}

/// The first position where `needle` occurs in `hay`.
pub open spec fn find(hay: Seq<char>, needle: Seq<char>) -> Option<nat> {
    find_from(hay, needle, 0)
}

/// In `signature`, the first occurrence of `keyword`, a space and `name` has its `name`
/// replaced by `path`; a signature without such an occurrence is unchanged.
pub open spec fn spec_qualify_signature(
    signature: Seq<char>,
    keyword: Seq<char>,
    name: Seq<char>,
    path: Seq<char>,
) -> Seq<char> {
    match find(signature, keyword + seq![' '] + name) {
        Some(start) => {
            let name_start = start + keyword.len() + 1;
            let name_end = name_start + name.len();
            signature.take(name_start as int) + path + signature.skip(name_end as int)
        },
        None => signature,
    }
}

/// The position of the first `\n` in `s`, or its length when it has none.
pub open spec fn newline_index(s: Seq<char>) -> nat
    decreases s.len(),
{
    if s.len() == 0 {
        0
    } else if s[0] == '\n' {
        0
    } else {
        1 + newline_index(s.drop_first())
    }
}

/// A line without its trailing `\r`, if it has one.
pub open spec fn strip_cr(line: Seq<char>) -> Seq<char> {
    if line.len() > 0 && line.last() == '\r' {
        line.drop_last()
    } else {
        line
    }
}

/// The lines of `s`: split at each `\n`, a `\r` right before a `\n` dropped, and no empty
/// last line after a final `\n`.
pub open spec fn spec_lines(s: Seq<char>) -> Seq<Seq<char>>
    decreases s.len(),
{
    if s.len() == 0 {
        Seq::empty()
    } else if newline_index(s) < s.len() {
        let k = newline_index(s);
        seq![strip_cr(s.take(k as int))] + spec_lines(s.skip((k + 1) as int))
    } else {
        seq![s]
    }
}

/// The lines of `s` joined by single spaces.
pub open spec fn spec_single_line(s: Seq<char>) -> Seq<char> {
    seq_join(spec_lines(s), seq![' '])
}

/// The characters `trait `.
pub open spec fn trait_prefix() -> Seq<char> {
    seq!['t', 'r', 'a', 'i', 't', ' ']
}

/// `s` with every leading repetition of `trait ` removed.
pub open spec fn spec_trim_trait_prefix(s: Seq<char>) -> Seq<char>
    decreases s.len(),
{
    if s.len() >= 6 && s.take(6) == trait_prefix() {
        spec_trim_trait_prefix(s.skip(6))
    } else {
        s
    }
}

/// The characters of `s`, in order.
pub fn chars_of(s: &str) -> (v: Vec<char>)
    ensures
        v@ == s@,
{
    let mut v: Vec<char> = Vec::new();
    for c in it: s.chars()
        invariant
            v@ == it.seq().take(it.index() as int),
    {
        v.push(c);
    }
    v
}

/// A new string holding the characters `from..to` of `s`.
fn substring(s: &str, from: usize, to: usize) -> (r: String)
    requires
        from <= to <= s@.len(),
    ensures
        r@ == s@.subrange(from as int, to as int),
{
    String::from_str(s.substring_char(from, to))
}

/// Joins the parts with `sep` between each two neighbours (itertools' `Itertools::join`).
#[verifier::external_body]
pub(crate) fn join_parts(parts: &Vec<String>, sep: &str) -> (r: String)
    ensures
        r@ == seq_join(views(parts@), sep@),
{
    parts.iter().join(sep)
}

/// Prefixes `pub ` to a line that does not already start with it.
pub fn ensure_pub(line: String) -> (r: String)
    ensures
        r@ == spec_ensure_pub(line@),
{
    let cs = chars_of(line.as_str());
    if cs.len() >= 4 && cs[0] == 'p' && cs[1] == 'u' && cs[2] == 'b' && cs[3] == ' ' {
        assert(cs@.take(4) =~= pub_prefix());
        line
    } else {
        proof {
            if line@.len() >= 4 {
                assert(line@.take(4)[0] == line@[0]);
                assert(line@.take(4)[1] == line@[1]);
                assert(line@.take(4)[2] == line@[2]);
                assert(line@.take(4)[3] == line@[3]);
            }
        }
        let mut r = String::from_str("pub ");
        proof {
            reveal_strlit("pub ");
        }
        r.append(line.as_str());
        assert(r@ =~= pub_prefix() + line@);
        r
    }
}

/// Whether `needle` occurs in `hay` at position `i`, for `i + needle.len() <= hay.len()`.
fn occurs_here(hay: &Vec<char>, needle: &Vec<char>, i: usize) -> (b: bool)
    requires
        i + needle@.len() <= hay@.len(),
    ensures
        b == (hay@.subrange(i as int, i + needle@.len()) == needle@),
{
    let hl = hay.len();
    let mut j: usize = 0;
    while j < needle.len()
        invariant
            j <= needle@.len(),
            hl == hay@.len(),
            i + needle@.len() <= hay@.len(),
            forall|k: int| 0 <= k < j ==> hay@[i + k] == needle@[k],
        decreases needle@.len() - j,
    {
        if hay[i + j] != needle[j] {
            assert(hay@.subrange(i as int, i + needle@.len())[j as int] != needle@[j as int]);
            return false;
        }
        j = j + 1;
    }
    assert(hay@.subrange(i as int, i + needle@.len()) =~= needle@);
    true
}

/// The first position where `needle` occurs in `hay`.
pub fn find_chars(hay: &Vec<char>, needle: &Vec<char>) -> (r: Option<usize>)
    ensures
        r matches Some(i) ==> find(hay@, needle@) == Some(i as nat),
        r is None ==> find(hay@, needle@) is None,
        r matches Some(i) ==> i + needle@.len() <= hay@.len(),
{
    if needle.len() > hay.len() {
        return None;
    }
    let last = hay.len() - needle.len();
    let mut i: usize = 0;
    loop
        invariant
            last + needle@.len() == hay@.len(),
            i <= last,
            find(hay@, needle@) == find_from(hay@, needle@, i as nat),
        decreases last - i,
    {
        if occurs_here(hay, needle, i) {
            return Some(i);
        }
        if i == last {
            assert(find_from(hay@, needle@, (i + 1) as nat) == None::<nat>);
            return None;
        }
        i = i + 1;
    }
}

/// Replaces, in `signature`, the `name` that follows the first `keyword` and a space by `path`.
pub fn qualify_signature(signature: String, keyword: &str, name: &str, path: &str) -> (r: String)
    ensures
        r@ == spec_qualify_signature(signature@, keyword@, name@, path@),
{
    let hay = chars_of(signature.as_str());
    let mut needle = chars_of(keyword);
    needle.push(' ');
    let name_chars = chars_of(name);
    let mut k: usize = 0;
    while k < name_chars.len()
        invariant
            k <= name_chars@.len(),
            name_chars@ == name@,
            needle@ == keyword@ + seq![' '] + name@.take(k as int),
        decreases name_chars@.len() - k,
    {
        needle.push(name_chars[k]);
        k = k + 1;
        assert(name@.take(k as int) =~= name@.take(k - 1).push(name@[k - 1]));
    }
    assert(name@.take(name@.len() as int) =~= name@);
    assert(needle@ == keyword@ + seq![' '] + name@);
    assert(hay@ == signature@);
    let hl = hay.len();
    let kl = keyword.unicode_len();
    let nl = name.unicode_len();
    match find_chars(&hay, &needle) {
        Some(start) => {
            assert(start + kl + 1 + nl <= hl);
            let name_start = start + kl + 1;
            let name_end = name_start + nl;
            let mut r = substring(signature.as_str(), 0, name_start);
            r.append(path);
            let rest = substring(signature.as_str(), name_end, hay.len());
            r.append(rest.as_str());
            assert(r@ =~= signature@.take(name_start as int) + path@ + signature@.skip(
                name_end as int,
            ));
            r
        },
        None => signature,
    }
}


proof fn lemma_newline_index(t: Seq<char>, k: int)
    requires
        0 <= k <= t.len(),
        forall|j: int| 0 <= j < k ==> t[j] != '\n',
        k < t.len() ==> t[k] == '\n',
    ensures
        newline_index(t) == k,
    decreases k,
{
    if k > 0 {
        lemma_newline_index(t.drop_first(), k - 1);
    }
}

/// The lines of `s`, as `str::lines` yields them.
pub fn split_lines(s: &str) -> (v: Vec<String>)
    ensures
        views(v@) == spec_lines(s@),
{
    let cs = chars_of(s);
    let n = cs.len();
    let mut v: Vec<String> = Vec::new();
    let mut start: usize = 0;
    let mut i: usize = 0;
    assert(s@.skip(0) =~= s@);
    while i < n
        invariant
            cs@ == s@,
            n == cs@.len(),
            start <= i <= n,
            forall|j: int| start <= j < i ==> cs@[j] != '\n',
            spec_lines(s@) == views(v@) + spec_lines(s@.skip(start as int)),
        decreases n - i,
    {
        if cs[i] == '\n' {
            let mut end = i;
            if end > start && cs[end - 1] == '\r' {
                end = end - 1;
            }
            let line = substring(s, start, end);
            proof {
                let t = s@.skip(start as int);
                let k = i - start;
                lemma_newline_index(t, k);
                assert(t.take(k) =~= s@.subrange(start as int, i as int));
                assert(t.skip(k + 1) =~= s@.skip(i + 1));
                assert(line@ == strip_cr(t.take(k)));
                assert(spec_lines(t) == seq![line@] + spec_lines(s@.skip(i + 1)));
                assert(views(v@.push(line)) =~= views(v@).push(line@));
            }
            v.push(line);
            start = i + 1;
        }
        i = i + 1;
    }
    if start < n {
        let line = substring(s, start, n);
        proof {
            let t = s@.skip(start as int);
            lemma_newline_index(t, t.len() as int);
            assert(line@ =~= t);
            assert(views(v@.push(line)) =~= views(v@).push(line@));
        }
        v.push(line);
    } else {
        assert(s@.skip(start as int) =~= Seq::<char>::empty());
    }
    assert(views(v@) =~= spec_lines(s@));
    v
}

/// The lines of `line` joined by single spaces.
pub fn single_line(line: String) -> (r: String)
    ensures
        r@ == spec_single_line(line@),
{
    let parts = split_lines(line.as_str());
    let r = join_parts(&parts, " ");
    proof {
        reveal_strlit(" ");
        assert(" "@ =~= seq![' ']);
    }
    r
}

/// `s` with every leading repetition of `trait ` removed.
pub fn trim_trait_prefix(s: &str) -> (r: String)
    ensures
        r@ == spec_trim_trait_prefix(s@),
{
    let cs = chars_of(s);
    let n = cs.len();
    let mut i: usize = 0;
    assert(s@.skip(0) =~= s@);
    while 6 <= n - i && cs[i] == 't' && cs[i + 1] == 'r' && cs[i + 2] == 'a' && cs[i + 3] == 'i'
        && cs[i + 4] == 't' && cs[i + 5] == ' '
        invariant
            cs@ == s@,
            n == cs@.len(),
            i <= n,
            spec_trim_trait_prefix(s@) == spec_trim_trait_prefix(s@.skip(i as int)),
        decreases n - i,
    {
        proof {
            let t = s@.skip(i as int);
            assert(t.take(6) =~= trait_prefix());
            assert(t.skip(6) =~= s@.skip(i + 6));
        }
        i = i + 6;
    }
    proof {
        let t = s@.skip(i as int);
        if t.len() >= 6 && t.take(6) == trait_prefix() {
            assert(t.take(6)[0] == t[0]);
            assert(t.take(6)[1] == t[1]);
            assert(t.take(6)[2] == t[2]);
            assert(t.take(6)[3] == t[3]);
            assert(t.take(6)[4] == t[4]);
            assert(t.take(6)[5] == t[5]);
        }
    }
    let r = substring(s, i, n);
    assert(r@ =~= s@.skip(i as int));
    r
}

} // verus!
