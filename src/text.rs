//! Text utilities of the line protocol: whitespace as Unicode defines it, splitting into
//! words, trimming, and the space- and comma-separated lists the protocol sends.

use vstd::prelude::*;
use crate::bytes::{chars_of, string_of};
use crate::primitives::push_char;

verus! {

/// Unicode `White_Space`, the characters `char::is_whitespace` accepts.
pub open spec fn is_ws(c: char) -> bool {
    ('\u{9}' <= c && c <= '\u{d}') || c == ' ' || c == '\u{85}' || c == '\u{a0}' || c == '\u{1680}'
        || ('\u{2000}' <= c && c <= '\u{200a}') || c == '\u{2028}' || c == '\u{2029}' || c == '\u{202f}'
        || c == '\u{205f}' || c == '\u{3000}'
}

pub fn is_ws_char(c: char) -> (r: bool)
    ensures
        r == is_ws(c),
{
    ('\u{9}' <= c && c <= '\u{d}') || c == ' ' || c == '\u{85}' || c == '\u{a0}' || c == '\u{1680}'
        || ('\u{2000}' <= c && c <= '\u{200a}') || c == '\u{2028}' || c == '\u{2029}' || c == '\u{202f}'
        || c == '\u{205f}' || c == '\u{3000}'
}

/// The maximal runs of non-whitespace characters of `s`, in order.
pub open spec fn words(s: Seq<char>) -> Seq<Seq<char>>
    decreases s.len(),
{
    if s.len() == 0 {
        Seq::empty()
    } else if is_ws(s.last()) {
        words(s.drop_last())
    } else {
        let w = words(s.drop_last());
        if s.len() >= 2 && !is_ws(s[s.len() - 2]) {
            w.update(w.len() - 1, w.last().push(s.last()))
        } else {
            w.push(seq![s.last()])
        }
    }
}

/// The words of `s`, as `str::split_whitespace` gives them.
pub fn split_words(s: &str) -> (r: Vec<String>)
    ensures
        r@.map_values(|w: String| w@) == words(s@),
{
    let cs = chars_of(s);
    let mut done: Vec<String> = Vec::new();
    let mut cur = String::new();
    let mut i: usize = 0;
    while i < cs.len()
        invariant
            i <= cs@.len(),
            cs@ == s@,
            (cur@.len() > 0) == (i > 0 && !is_ws(cs@[i - 1])),
            words(cs@.subrange(0, i as int)) == if cur@.len() > 0 {
                done@.map_values(|w: String| w@).push(cur@)
            } else {
                done@.map_values(|w: String| w@)
            },
        decreases cs@.len() - i,
    {
        let c = cs[i];
        let ghost pre = cs@.subrange(0, i as int);
        let ghost next = cs@.subrange(0, i + 1int);
        let ghost d0 = done@.map_values(|w: String| w@);
        let ghost c0 = cur@;
        assert(next.drop_last() =~= pre);
        assert(next.last() == c);
        if i >= 1 {
            assert(next[next.len() - 2] == cs@[i - 1]);
        }
        if is_ws_char(c) {
            if !cur.as_str().is_empty() {
                done.push(cur);
                cur = String::new();
                assert(done@.map_values(|w: String| w@) =~= d0.push(c0));
            }
        } else {
            push_char(&mut cur, c);
            proof {
                if c0.len() > 0 {
                    assert(words(next) =~= d0.push(c0).update(d0.len() as int, c0.push(c)));
                    assert(d0.push(c0).update(d0.len() as int, c0.push(c)) =~= d0.push(cur@));
                } else {
                    assert(cur@ =~= seq![c]);
                }
            }
        }
        i = i + 1;
    }
    if !cur.as_str().is_empty() {
        done.push(cur);
    }
    assert(cs@.subrange(0, cs@.len() as int) =~= s@);
    assert(done@.map_values(|w: String| w@) =~= words(s@));
    done
}

/// `s` without its trailing whitespace.
pub open spec fn trim_end_spec(s: Seq<char>) -> Seq<char>
    decreases s.len(),
{
    if s.len() > 0 && is_ws(s.last()) {
        trim_end_spec(s.drop_last())
    } else {
        s
    }
}

/// `s` without its trailing whitespace, as `str::trim_end` gives it.
pub fn trim_end(s: &str) -> (r: String)
    ensures
        r@ == trim_end_spec(s@),
{
    let cs = chars_of(s);
    let mut n: usize = cs.len();
    assert(cs@.subrange(0, n as int) =~= s@);
    while n > 0 && is_ws_char(cs[n - 1])
        invariant
            n <= cs@.len(),
            cs@ == s@,
            trim_end_spec(s@) == trim_end_spec(cs@.subrange(0, n as int)),
        decreases n,
    {
        assert(cs@.subrange(0, n as int).drop_last() =~= cs@.subrange(0, n - 1));
        n = n - 1;
    }
    assert(trim_end_spec(cs@.subrange(0, n as int)) == cs@.subrange(0, n as int));
    string_of(cs.as_slice(), 0, n)
}

/// `s` without its leading whitespace.
pub open spec fn trim_start_spec(s: Seq<char>) -> Seq<char>
    decreases s.len(),
{
    if s.len() > 0 && is_ws(s[0]) {
        trim_start_spec(s.drop_first())
    } else {
        s
    }
}

/// `s` without its leading whitespace, as `str::trim_start` gives it.
pub fn trim_start(s: &str) -> (r: String)
    ensures
        r@ == trim_start_spec(s@),
{
    let cs = chars_of(s);
    let mut k: usize = 0;
    assert(cs@.subrange(0, cs@.len() as int) =~= s@);
    while k < cs.len() && is_ws_char(cs[k])
        invariant
            k <= cs@.len(),
            cs@ == s@,
            trim_start_spec(s@) == trim_start_spec(cs@.subrange(k as int, cs@.len() as int)),
        decreases cs@.len() - k,
    {
        assert(cs@.subrange(k as int, cs@.len() as int).drop_first() =~= cs@.subrange(k + 1int, cs@.len() as int));
        k = k + 1;
    }
    string_of(cs.as_slice(), k, cs.len())
}

/// Each item preceded by a space: `" a b c"`.
pub open spec fn spaced(items: Seq<Seq<char>>) -> Seq<char>
    decreases items.len(),
{
    if items.len() == 0 {
        Seq::empty()
    } else {
        spaced(items.drop_last()) + seq![' '] + items.last()
    }
}

/// The items separated by commas: `"a,b,c"`.
pub open spec fn comma_joined(items: Seq<Seq<char>>) -> Seq<char>
    decreases items.len(),
{
    if items.len() == 0 {
        Seq::empty()
    } else if items.len() == 1 {
        items[0]
    } else {
        comma_joined(items.drop_last()) + seq![','] + items.last()
    }
}

fn append_str(r: &mut String, s: &str)
    ensures
        final(r)@ == old(r)@ + s@,
{
    let cs = chars_of(s);
    let mut i: usize = 0;
    while i < cs.len()
        invariant
            i <= cs@.len(),
            cs@ == s@,
            r@ == old(r)@ + s@.subrange(0, i as int),
        decreases cs@.len() - i,
    {
        push_char(r, cs[i]);
        i = i + 1;
    }
    assert(s@.subrange(0, s@.len() as int) =~= s@);
}

/// `head` followed by each item preceded by a space.
pub fn spaced_list(head: &str, items: &Vec<String>) -> (r: String)
    ensures
        r@ == head@ + spaced(items@.map_values(|s: String| s@)),
{
    let mut r = head.to_owned();
    let mut i: usize = 0;
    while i < items.len()
        invariant
            i <= items@.len(),
            r@ == head@ + spaced(items@.map_values(|s: String| s@).subrange(0, i as int)),
        decreases items@.len() - i,
    {
        let ghost pre = items@.map_values(|s: String| s@).subrange(0, i as int);
        let ghost next = items@.map_values(|s: String| s@).subrange(0, i + 1int);
        assert(next.drop_last() =~= pre);
        push_char(&mut r, ' ');
        append_str(&mut r, items[i].as_str());
        assert(r@ =~= head@ + spaced(next));
        i = i + 1;
    }
    assert(items@.map_values(|s: String| s@).subrange(0, items@.len() as int) =~= items@.map_values(|s: String| s@));
    r
}

/// `head` followed by the items separated by commas.
pub fn comma_list(head: &str, items: &Vec<String>) -> (r: String)
    ensures
        r@ == head@ + comma_joined(items@.map_values(|s: String| s@)),
{
    let mut r = head.to_owned();
    let mut i: usize = 0;
    while i < items.len()
        invariant
            i <= items@.len(),
            r@ == head@ + comma_joined(items@.map_values(|s: String| s@).subrange(0, i as int)),
        decreases items@.len() - i,
    {
        let ghost pre = items@.map_values(|s: String| s@).subrange(0, i as int);
        let ghost next = items@.map_values(|s: String| s@).subrange(0, i + 1int);
        assert(next.drop_last() =~= pre);
        if i > 0 {
            push_char(&mut r, ',');
        }
        append_str(&mut r, items[i].as_str());
        if i == 0 {
            assert(next =~= seq![items@[0]@]);
        }
        assert(r@ =~= head@ + comma_joined(next));
        i = i + 1;
    }
    assert(items@.map_values(|s: String| s@).subrange(0, items@.len() as int) =~= items@.map_values(|s: String| s@));
    r
}

/// The concatenation of the three texts.
pub fn concat3(a: &str, b: &str, c: &str) -> (r: String)
    ensures
        r@ == a@ + b@ + c@,
{
    let mut r = a.to_owned();
    append_str(&mut r, b);
    append_str(&mut r, c);
    r
}

} // verus!
