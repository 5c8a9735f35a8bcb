//! The text side of the node's serial CLI: framing a command and
//! extracting the value from the raw bytes that came back.
use vstd::prelude::*;
use vstd::string::StringExecFns;
use vstd::utf8::{decode_utf8, valid_utf8};

use crate::text::{is_white_space, same_text, to_chars, trim, trim_end, trim_range, trim_start};

verus! {

/// Number of characters before the first `'\n'` (the whole length when
/// there is none).
pub open spec fn newline_pos(s: Seq<char>) -> nat
    decreases s.len(),
{
    if s.len() == 0 || s[0] == '\n' {
        0
    } else {
        1 + newline_pos(s.drop_first())
    }
}

/// The lines of a text as `str::lines` yields them: the pieces between
/// `'\n'` characters, with no empty piece after a final `'\n'`.
/// (`str::lines` also drops a `'\r'` right before each `'\n'`; every use
/// below trims the line, which removes that `'\r'` anyway.)
pub open spec fn lines(s: Seq<char>) -> Seq<Seq<char>>
    decreases s.len(),
{
    if s.len() == 0 {
        seq![]
    } else {
        let n = newline_pos(s);
        if n >= s.len() {
            seq![s]
        } else {
            seq![s.take(n as int)] + lines(s.skip(n + 1 as int))
        }
    }
}

/// Whether the marker `->` starts at index `i` of the text.
pub open spec fn arrow_at(s: Seq<char>, i: int) -> bool {
    0 <= i && i + 1 < s.len() && s[i] == '-' && s[i + 1] == '>'
}

/// Whether the text contains the marker `->` that the node puts before a reply.
pub open spec fn has_arrow(s: Seq<char>) -> bool {
    exists|i: int| #[trigger] arrow_at(s, i)
}

/// The text with every leading `->` removed (`str::trim_start_matches("->")`).
pub open spec fn strip_arrows(s: Seq<char>) -> Seq<char>
    decreases s.len(),
{
    if s.len() >= 2 && s[0] == '-' && s[1] == '>' {
        strip_arrows(s.skip(2))
    } else {
        s
    }
}

/// The first of the lines whose trimmed text contains `->`.
pub open spec fn first_arrow_line(ls: Seq<Seq<char>>) -> Option<Seq<char>>
    decreases ls.len(),
{
    if ls.len() == 0 {
        None
    } else if has_arrow(trim(ls[0])) {
        Some(ls[0])
    } else {
        first_arrow_line(ls.drop_first())
    }
}

/// The line that holds the reply: the first line containing `->`, else the
/// first line, else nothing.
pub open spec fn response_line(s: Seq<char>) -> Seq<char> {
    match first_arrow_line(lines(s)) {
        Some(l) => l,
        None => if lines(s).len() > 0 {
            lines(s)[0]
        } else {
            seq![]
        },
    }
}

/// The reply value: the response line, trimmed, without its leading `->`
/// markers, and trimmed again.
pub open spec fn normalized(s: Seq<char>) -> Seq<char> {
    trim(strip_arrows(trim(response_line(s))))
}

proof fn lemma_arrow_trim_start(s: Seq<char>)
    ensures
        has_arrow(trim_start(s)) == has_arrow(s),
    decreases s.len(),
{
    if s.len() > 0 && is_white_space(s[0]) {
        let t = s.drop_first();
        lemma_arrow_trim_start(t);
        if has_arrow(s) {
            let i = choose|i: int| #[trigger] arrow_at(s, i);
            assert(i != 0);
            assert(arrow_at(t, i - 1));
        }
        if has_arrow(t) {
            let i = choose|i: int| #[trigger] arrow_at(t, i);
            assert(arrow_at(s, i + 1));
        }
    }
}

proof fn lemma_arrow_trim_end(s: Seq<char>)
    ensures
        has_arrow(trim_end(s)) == has_arrow(s),
    decreases s.len(),
{
    if s.len() > 0 && is_white_space(s.last()) {
        let t = s.drop_last();
        lemma_arrow_trim_end(t);
        if has_arrow(s) {
            let i = choose|i: int| #[trigger] arrow_at(s, i);
            assert(i + 1 != s.len() - 1);
            assert(arrow_at(t, i));
        }
        if has_arrow(t) {
            let i = choose|i: int| #[trigger] arrow_at(t, i);
            assert(arrow_at(s, i));
        }
    }
}

/// Trimming never adds or removes a `->` marker.
pub proof fn lemma_arrow_trim(s: Seq<char>)
    ensures
        has_arrow(trim(s)) == has_arrow(s),
{
    lemma_arrow_trim_start(s);
    lemma_arrow_trim_end(trim_start(s));
}

/// End of the line that starts at `from`: the index of the next `'\n'`, or
/// the length.
fn line_end(chars: &Vec<char>, from: usize) -> (r: usize)
    requires
        from <= chars.len(),
    ensures
        r == from + newline_pos(chars@.skip(from as int)),
        from <= r <= chars.len(),
        r < chars.len() ==> chars@[r as int] == '\n',
{
    let mut i = from;
    while i < chars.len() && chars[i] != '\n'
        invariant
            from <= i <= chars.len(),
            newline_pos(chars@.skip(from as int)) == (i - from) + newline_pos(
                chars@.skip(i as int),
            ),
        decreases chars.len() - i,
    {
        assert(chars@.skip(i as int).drop_first() =~= chars@.skip(i + 1));
        i = i + 1;
    }
    i
}

/// Whether `chars[lo..hi]` contains `->`.
fn contains_arrow(chars: &Vec<char>, lo: usize, hi: usize) -> (r: bool)
    requires
        lo <= hi <= chars.len(),
    ensures
        r == has_arrow(chars@.subrange(lo as int, hi as int)),
{
    let ghost t = chars@.subrange(lo as int, hi as int);
    let mut i = lo;
    while hi - i >= 2
        invariant
            lo <= i <= hi,
            hi <= chars.len(),
            t == chars@.subrange(lo as int, hi as int),
            forall|j: int| 0 <= j < i - lo ==> !#[trigger] arrow_at(t, j),
        decreases hi - i,
    {
        if chars[i] == '-' && chars[i + 1] == '>' {
            assert(arrow_at(t, i - lo));
            return true;
        }
        i = i + 1;
    }
    assert forall|j: int| !#[trigger] arrow_at(t, j) by {
        if arrow_at(t, j) {
            assert(j < i - lo);
        }
    }
    false
}

/// One step through the lines: the line at `pos..end` comes first in
/// `lines(s.skip(pos))`, and the rest starts after its `'\n'`.
proof fn lemma_lines_step(s: Seq<char>, pos: int, end: int)
    requires
        0 <= pos < s.len(),
        end == pos + newline_pos(s.skip(pos)),
        end <= s.len(),
        end < s.len() ==> s[end] == '\n',
    ensures
        end < s.len() ==> lines(s.skip(pos)) == seq![s.subrange(pos, end)] + lines(
            s.skip(end + 1),
        ),
        end == s.len() ==> lines(s.skip(pos)) == seq![s.subrange(pos, end)],
{
    let t = s.skip(pos);
    assert(t.len() > 0);
    if end < s.len() {
        assert(t.take(end - pos) =~= s.subrange(pos, end));
        assert(t.skip(end - pos + 1) =~= s.skip(end + 1));
    } else {
        assert(t =~= s.subrange(pos, end));
    }
}

/// The range of the first line whose text contains `->`, if any.
fn find_arrow_line(chars: &Vec<char>) -> (r: Option<(usize, usize)>)
    ensures
        match r {
            Some((a, b)) => a <= b <= chars.len() && first_arrow_line(lines(chars@)) == Some(
                chars@.subrange(a as int, b as int),
            ),
            None => first_arrow_line(lines(chars@)) is None,
        },
{
    let ghost s = chars@;
    let n = chars.len();
    let mut pos: usize = 0;
    assert(s.skip(0) =~= s);
    while pos < n
        invariant
            s == chars@,
            n == s.len(),
            pos <= n,
            first_arrow_line(lines(s)) == first_arrow_line(lines(s.skip(pos as int))),
        decreases n - pos,
    {
        let end = line_end(chars, pos);
        proof {
            lemma_lines_step(s, pos as int, end as int);
            lemma_arrow_trim(s.subrange(pos as int, end as int));
        }
        if contains_arrow(chars, pos, end) {
            return Some((pos, end));
        }
        if end == n {
            proof {
                let ls = lines(s.skip(pos as int));
                assert(ls.drop_first() =~= Seq::<Seq<char>>::empty());
                assert(s.skip(n as int) =~= Seq::<char>::empty());
            }
            pos = n;
        } else {
            proof {
                let ls = lines(s.skip(pos as int));
                assert(ls.drop_first() =~= lines(s.skip(end + 1)));
            }
            pos = end + 1;
        }
    }
    assert(s.skip(n as int) =~= Seq::<char>::empty());
    None
}

/// Start of `chars[lo..hi]` once every leading `->` is removed.
fn skip_arrows(chars: &Vec<char>, lo: usize, hi: usize) -> (r: usize)
    requires
        lo <= hi <= chars.len(),
    ensures
        lo <= r <= hi,
        chars@.subrange(r as int, hi as int) == strip_arrows(chars@.subrange(lo as int, hi as int)),
{
    let mut i = lo;
    while hi - i >= 2 && chars[i] == '-' && chars[i + 1] == '>'
        invariant
            lo <= i <= hi,
            hi <= chars.len(),
            strip_arrows(chars@.subrange(lo as int, hi as int)) == strip_arrows(
                chars@.subrange(i as int, hi as int),
            ),
        decreases hi - i,
    {
        assert(chars@.subrange(i as int, hi as int).skip(2) =~= chars@.subrange(i + 2, hi as int));
        i = i + 2;
    }
    i
}

/// Extracts the response line (the one containing "->") from a raw buffer
/// and returns the value after "->". The raw buffer may hold the echoed
/// command on its first line(s), then `"  -> value\r\n"`.
pub fn normalize_line(s: &str) -> (r: String)
    ensures
        r@ == normalized(s@),
{
    let chars = to_chars(s);
    let n = chars.len();
    let (a, b) = match find_arrow_line(&chars) {
        Some(range) => range,
        None => {
            if n == 0 {
                assert(lines(chars@) =~= Seq::<Seq<char>>::empty());
                assert(chars@.subrange(0, 0) =~= Seq::<char>::empty());
                (0, 0)
            } else {
                let e = line_end(&chars, 0);
                proof {
                    assert(chars@.skip(0) =~= chars@);
                    lemma_lines_step(chars@, 0, e as int);
                }
                (0, e)
            }
        },
    };
    assert(chars@.subrange(a as int, b as int) == response_line(s@));
    let (a1, b1) = trim_range(&chars, a, b);
    let a2 = skip_arrows(&chars, a1, b1);
    let (a3, b3) = trim_range(&chars, a2, b1);
    s.substring_char(a3, b3).to_owned()
}

/// The bytes sent for a CLI command: the command followed by CR LF.
pub fn command_frame(cmd: &str) -> (r: String)
    ensures
        r@ == cmd@ + seq!['\r', '\n'],
{
    let mut r = cmd.to_owned();
    r.append("\r\n");
    proof {
        reveal_strlit("\r\n");
    }
    r
}

/// Whether a port of that name is among the ports the system lists.
pub fn port_listed(available: &[String], name: &str) -> (r: bool)
    ensures
        r == exists|i: int| 0 <= i < available@.len() && #[trigger] available@[i]@ == name@,
{
    let mut i: usize = 0;
    while i < available.len()
        invariant
            i <= available@.len(),
            forall|j: int| 0 <= j < i ==> #[trigger] available@[j]@ != name@,
        decreases available@.len() - i,
    {
        if same_text(available[i].as_str(), name) {
            return true;
        }
        i = i + 1;
    }
    false
}

// The text `String::from_utf8_lossy` makes of a byte sequence: it depends on
// the bytes alone.
pub uninterp spec fn lossy_text(bytes: Seq<u8>) -> Seq<char>;

/// Calls `String::from_utf8_lossy`. Trusted contract: the result is
/// `lossy_text` of the bytes, and for valid UTF-8 it is the text the bytes
/// encode, as the std documentation says. What it makes of invalid
/// sequences (each replaced by U+FFFD) is left to the name.
#[verifier::external_body]
fn decode_lossy(bytes: &[u8]) -> (r: String)
    ensures
        r@ == lossy_text(bytes@),
        valid_utf8(bytes@) ==> r@ == decode_utf8(bytes@),
{
    String::from_utf8_lossy(bytes).into_owned()
}

/// Why a reply could not be read.
#[derive(Debug, Clone, Copy, PartialEq, Eq, Structural)]
pub enum ResponseError {
    /// The node sent no byte before the read timed out.
    NoResponse,
}

/// The text of the raw bytes the node sent in reply to a command: an error
/// when it sent nothing, else the bytes decoded as UTF-8, with invalid
/// sequences replaced by U+FFFD.
pub fn response_text(bytes: &[u8]) -> (r: Result<String, ResponseError>)
    ensures
        match r {
            Ok(s) => bytes@.len() > 0 && s@ == lossy_text(bytes@) && (valid_utf8(bytes@) ==> s@
                == decode_utf8(bytes@)),
            Err(e) => bytes@.len() == 0 && e == ResponseError::NoResponse,
        },
{
    if bytes.len() == 0 {
        return Err(ResponseError::NoResponse);
    }
    Ok(decode_lossy(bytes))
}

} // verus!
