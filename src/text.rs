//! Building text one character at a time.
use vstd::prelude::*;

verus! {

/// Relies on `String::push`, which appends one character to the string.
#[verifier::external_body]
pub(crate) fn push_char(s: &mut String, c: char)
    ensures
        final(s)@ == old(s)@.push(c),
{
    s.push(c)
}

/// `s` up to position `i`, where each line break that is followed by more
/// text is followed by `p` too, and a line break at the very end is left out.
pub open spec fn indent_upto(s: Seq<char>, i: int, p: Seq<char>) -> Seq<char>
    decreases i,
{
    if i <= 0 {
        Seq::empty()
    } else {
        let piece = if s[i - 1] != '\n' {
            seq![s[i - 1]]
        } else if i < s.len() {
            seq!['\n'] + p
        } else {
            Seq::empty()
        };
        indent_upto(s, i - 1, p) + piece
    }
}

/// `s` with `p` put at the start of every line but the first, and without a
/// final line break.
pub open spec fn indented(s: Seq<char>, p: Seq<char>) -> Seq<char> {
    indent_upto(s, s.len() as int, p)
}

/// Appends `s` to `out` with `p` at the start of every line of `s` but the
/// first, and without a final line break of `s`.
pub fn push_indented(out: &mut String, s: &str, p: &str)
    ensures
        final(out)@ == old(out)@ + indented(s@, p@),
{
    let ghost start = out@;
    let n = s.unicode_len();
    let mut i: usize = 0;
    while i < n
        invariant
            n == s@.len(),
            i <= n,
            out@ == start + indent_upto(s@, i as int, p@),
        decreases n - i,
    {
        let c = s.get_char(i);
        if c != '\n' {
            push_char(out, c);
        } else if i + 1 < n {
            push_char(out, '\n');
            out.append(p);
        }
        i = i + 1;
        assert(out@ =~= start + indent_upto(s@, i as int, p@));
    }
}

} // verus!
