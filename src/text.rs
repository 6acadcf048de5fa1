//! Small string helpers shared by the lexer, the renderer and the projectors.
use vstd::prelude::*;
use vstd::std_specs::iter::IteratorSpec;

verus! {

/// Relies on `String::push`: the character is appended at the end of the string.
pub assume_specification[ std::string::String::push ](s: &mut std::string::String, ch: char)
    ensures
        final(s)@ == old(s)@.push(ch),
;

/// Appends every character of `tail` to `out`.
pub fn push_str(out: &mut String, tail: &str)
    ensures
        final(out)@ == old(out)@ + tail@,
{
    let n = tail.unicode_len();
    let mut i: usize = 0;
    while i < n
        invariant
            n == tail@.len(),
            i <= n,
            out@ == old(out)@ + tail@.subrange(0, i as int),
        decreases n - i,
    {
        let c = tail.get_char(i);
        out.push(c);
        i = i + 1;
        assert(tail@.subrange(0, i as int) =~= tail@.subrange(0, i - 1).push(c));
    }
    assert(tail@.subrange(0, n as int) =~= tail@);
}

/// Appends the characters of `tail[from..to]` to `out`.
pub fn push_chars(out: &mut String, tail: &Vec<char>, from: usize, to: usize)
    requires
        from <= to <= tail@.len(),
    ensures
        final(out)@ == old(out)@ + tail@.subrange(from as int, to as int),
{
    let mut i: usize = from;
    while i < to
        invariant
            from <= i <= to <= tail@.len(),
            out@ == old(out)@ + tail@.subrange(from as int, i as int),
        decreases to - i,
    {
        out.push(tail[i]);
        i = i + 1;
        assert(tail@.subrange(from as int, i as int) =~= tail@.subrange(from as int, i - 1).push(
            tail@[i - 1],
        ));
    }
}

/// A new string holding the characters of `chars[from..to]`.
pub fn string_of(chars: &Vec<char>, from: usize, to: usize) -> (r: String)
    requires
        from <= to <= chars@.len(),
    ensures
        r@ == chars@.subrange(from as int, to as int),
{
    let mut r = String::new();
    push_chars(&mut r, chars, from, to);
    r
}

/// Whether two strings hold the same characters.
pub fn same_text(a: &str, b: &str) -> (r: bool)
    ensures
        r == (a@ == b@),
{
    let n = a.unicode_len();
    if n != b.unicode_len() {
        return false;
    }
    let mut i: usize = 0;
    while i < n
        invariant
            n == a@.len() == b@.len(),
            i <= n,
            forall|k: int| 0 <= k < i ==> a@[k] == b@[k],
        decreases n - i,
    {
        if a.get_char(i) != b.get_char(i) {
            return false;
        }
        i = i + 1;
    }
    assert(a@ =~= b@);
    true
}

/// The characters of `s`, in order.
pub fn chars_of(s: &str) -> (r: Vec<char>)
    ensures
        r@ == s@,
{
    let mut r: Vec<char> = Vec::new();
    let mut it = s.chars();
    proof {
        broadcast use vstd::string::group_string_axioms;
    }
    loop
        invariant
            r@ + it.remaining() == s@,
            it.obeys_prophetic_iter_laws(),
            it.decrease() is Some,
        decreases it.decrease()->0,
    {
        match it.next() {
            Some(c) => {
                proof {
                    broadcast use vstd::string::group_string_axioms;
                }
                r.push(c);
                assert(r@ + it.remaining() =~= s@);
            },
            None => {
                proof {
                    broadcast use vstd::string::group_string_axioms;
                }
                assert(r@ =~= s@);
                return r;
            },
        }
    }
}

} // verus!
