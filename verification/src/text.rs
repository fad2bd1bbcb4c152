//! Text helpers shared by the editor: UTF-8 byte views of strings, the
//! `String` operations the editor relies on, and the split/join of a file's
//! contents into lines.
use vstd::prelude::*;
use vstd::utf8::*;

verus! {

broadcast use vstd::utf8::group_utf8_lib;

/// The UTF-8 bytes of a character sequence.
pub open spec fn utf8(s: Seq<char>) -> Seq<u8> {
    encode_utf8(s)
}

/// Length in bytes of the UTF-8 encoding of `s` (what `String::len` returns).
pub open spec fn byte_len(s: Seq<char>) -> nat {
    encode_utf8(s).len()
}

/// Number of bytes of the UTF-8 encoding of one character (what `char::len_utf8` returns).
pub open spec fn char_width(c: char) -> nat {
    encode_utf8(seq![c]).len()
}

/// Whether byte offset `i` of the UTF-8 encoding of `s` starts a character or ends the text.
pub open spec fn boundary(s: Seq<char>, i: int) -> bool {
    is_char_boundary(encode_utf8(s), i)
}

/// Encoding a concatenation is concatenating the encodings.
pub broadcast proof fn lemma_utf8_concat(a: Seq<char>, b: Seq<char>)
    ensures
        #[trigger] encode_utf8(a + b) == encode_utf8(a) + encode_utf8(b),
    decreases a.len(),
{
    if a.len() == 0 {
        assert(a + b =~= b);
        assert(encode_utf8(a) + encode_utf8(b) =~= encode_utf8(b));
    } else {
        lemma_utf8_concat(a.drop_first(), b);
        assert((a + b).drop_first() =~= a.drop_first() + b);
        assert((a + b)[0] == a[0]);
        assert(encode_utf8(a + b) =~= encode_scalar(a[0] as u32) + encode_utf8(a.drop_first() + b));
    }
}

/// Two character sequences with the same encoding are equal.
pub proof fn lemma_utf8_injective(a: Seq<char>, b: Seq<char>)
    requires
        encode_utf8(a) == encode_utf8(b),
    ensures
        a == b,
{
    encode_utf8_decode_utf8(a);
    encode_utf8_decode_utf8(b);
}

/// The encoding of a single character is the encoding of its scalar value.
pub proof fn lemma_utf8_single(c: char)
    ensures
        encode_utf8(seq![c]) == encode_scalar(c as u32),
{
    assert(seq![c].drop_first() =~= Seq::<char>::empty());
    assert(seq![c][0] == c);
    assert(encode_utf8(Seq::<char>::empty()) =~= Seq::<u8>::empty());
    assert(encode_utf8(seq![c]) =~= encode_scalar(c as u32) + encode_utf8(Seq::<char>::empty()));
}

/// One character of width 1 is the single byte of its code point.
pub proof fn lemma_ascii_width(c: char)
    requires
        (c as u32) < 128,
    ensures
        char_width(c) == 1,
        encode_utf8(seq![c]) == seq![c as u8],
{
    let u = c as u32;
    lemma_utf8_single(c);
    assert((u & 0x7F) as u8 == u as u8) by (bit_vector)
        requires
            u < 128,
    ;
    assert(u as u8 == c as u8);
}

/// `char::len_utf8`: the number of bytes `c` takes in UTF-8.
pub fn char_len_utf8(c: char) -> (n: usize)
    ensures
        n == char_width(c),
        1 <= n <= 4,
{
    proof {
        lemma_utf8_single(c);
        char_is_scalar(c);
    }
    let u = c as u32;
    if u < 0x80 {
        1
    } else if u < 0x800 {
        2
    } else if u < 0x10000 {
        3
    } else {
        4
    }
}

/// `String::len`: the number of bytes of the string's UTF-8 encoding.
#[verifier::external_body]
pub(crate) fn string_len(s: &String) -> (n: usize)
    ensures
        n == byte_len(s@),
{
    s.len()
}

/// `str::len`: the number of bytes of the slice's UTF-8 encoding.
#[verifier::external_body]
pub(crate) fn str_len(s: &str) -> (n: usize)
    ensures
        n == byte_len(s@),
{
    s.len()
}

/// `String::insert`: puts `ch` into `s` at byte offset `idx`. The standard
/// library panics unless `idx` is a character boundary of `s`, so that is
/// required; the bytes after the call are the old ones with the encoding of
/// `ch` spliced in at `idx`.
#[verifier::external_body]
pub(crate) fn string_insert(s: &mut String, idx: usize, ch: char)
    requires
        boundary(old(s)@, idx as int),
    ensures
        utf8(final(s)@) == utf8(old(s)@).subrange(0, idx as int) + utf8(seq![ch]) + utf8(
            old(s)@,
        ).subrange(idx as int, byte_len(old(s)@) as int),
{
    s.insert(idx, ch)
}

/// `String::remove`: takes out the character that starts at byte offset
/// `idx` and returns it. The standard library panics unless `idx` is a
/// character boundary before the end, so that is required; the returned
/// character's encoding is the bytes that were removed.
#[verifier::external_body]
pub(crate) fn string_remove(s: &mut String, idx: usize) -> (ch: char)
    requires
        boundary(old(s)@, idx as int),
        idx < byte_len(old(s)@),
    ensures
        idx + char_width(ch) <= byte_len(old(s)@),
        utf8(old(s)@).subrange(idx as int, idx + char_width(ch)) == utf8(seq![ch]),
        utf8(final(s)@) == utf8(old(s)@).subrange(0, idx as int) + utf8(old(s)@).subrange(
            idx + char_width(ch),
            byte_len(old(s)@) as int,
        ),
{
    s.remove(idx)
}

/// `String::split_off`: keeps the bytes before `at` in `s` and returns the
/// rest. The standard library panics unless `at` is a character boundary,
/// so that is required.
#[verifier::external_body]
pub(crate) fn string_split_off(s: &mut String, at: usize) -> (rest: String)
    requires
        boundary(old(s)@, at as int),
    ensures
        utf8(final(s)@) == utf8(old(s)@).subrange(0, at as int),
        utf8(rest@) == utf8(old(s)@).subrange(at as int, byte_len(old(s)@) as int),
{
    s.split_off(at)
}

/// `String::push`: appends one character.
#[verifier::external_body]
pub(crate) fn string_push(s: &mut String, ch: char)
    ensures
        final(s)@ == old(s)@.push(ch),
{
    s.push(ch)
}

/// `String::pop`: takes off the last character, if any.
#[verifier::external_body]
pub(crate) fn string_pop(s: &mut String) -> (c: Option<char>)
    ensures
        old(s)@.len() == 0 ==> c is None && final(s)@ == old(s)@,
        old(s)@.len() > 0 ==> c == Some(old(s)@.last()) && final(s)@ == old(s)@.drop_last(),
{
    s.pop()
}

/// A string made from a literal or another string slice.
pub fn string_of(s: &str) -> (r: String)
    ensures
        r@ == s@,
{
    s.to_owned()
}

/// The pieces of `s` between its newline characters (one more piece than
/// there are newlines).
pub open spec fn pieces(s: Seq<char>) -> Seq<Seq<char>>
    decreases s.len(),
{
    if s.len() == 0 {
        seq![Seq::<char>::empty()]
    } else {
        let p = pieces(s.drop_last());
        if s.last() == '\n' {
            p.push(Seq::<char>::empty())
        } else {
            p.update(p.len() - 1, p.last().push(s.last()))
        }
    }
}

/// A line without the carriage return that ended it, if any.
pub open spec fn strip_cr(l: Seq<char>) -> Seq<char> {
    if l.len() > 0 && l.last() == '\r' {
        l.drop_last()
    } else {
        l
    }
}

/// The lines of a text as `str::lines` yields them: the text is split at
/// each `\n`, a `\r` just before a `\n` belongs to the line ending, and a
/// final line ending does not start another (empty) line.
pub open spec fn text_lines(s: Seq<char>) -> Seq<Seq<char>> {
    let p = pieces(s);
    let ended = Seq::new((p.len() - 1) as nat, |j: int| strip_cr(p[j]));
    if p.last().len() == 0 {
        ended
    } else {
        ended.push(p.last())
    }
}

/// The character views of a vector of strings.
pub open spec fn strings_view(v: Seq<String>) -> Seq<Seq<char>> {
    Seq::new(v.len(), |i: int| v[i]@)
}

proof fn lemma_pieces_nonempty(s: Seq<char>)
    ensures
        pieces(s).len() >= 1,
    decreases s.len(),
{
    if s.len() > 0 {
        lemma_pieces_nonempty(s.drop_last());
    }
}

/// Splits a file's contents into its lines (`str::lines`).
pub fn split_lines(text: &str) -> (lines: Vec<String>)
    ensures
        strings_view(lines@) == text_lines(text@),
{
    broadcast use vstd::string::group_string_axioms;

    let mut done: Vec<String> = Vec::new();
    let mut cur = String::new();
    let mut pending_cr = false;
    for c in it: text.chars()
        invariant
            it.seq() == text@,
            pieces(text@.take(it.index())).len() == done@.len() + 1,
            forall|j: int|
                0 <= j < done@.len() ==> #[trigger] done@[j]@ == strip_cr(
                    pieces(text@.take(it.index()))[j],
                ),
            !pending_cr ==> (cur@.len() == 0 || cur@.last() != '\r'),
            pieces(text@.take(it.index())).last() == if pending_cr {
                cur@.push('\r')
            } else {
                cur@
            },
    {
        let ghost k = it.index();
        proof {
            lemma_pieces_nonempty(text@.take(k));
            assert(text@.take(k + 1).drop_last() =~= text@.take(k));
            assert(text@.take(k + 1).last() == c);
        }
        if c == '\n' {
            done.push(cur);
            cur = String::new();
            pending_cr = false;
        } else if c == '\r' {
            if pending_cr {
                string_push(&mut cur, '\r');
            }
            pending_cr = true;
        } else {
            if pending_cr {
                string_push(&mut cur, '\r');
            }
            string_push(&mut cur, c);
            pending_cr = false;
        }
    }
    if pending_cr {
        string_push(&mut cur, '\r');
    }
    proof {
        assert(text@.take(text@.len() as int) =~= text@);
    }
    let ghost p = pieces(text@);
    proof {
        lemma_pieces_nonempty(text@);
        assert(strings_view(done@) =~= Seq::new((p.len() - 1) as nat, |j: int| strip_cr(p[j])));
    }
    if !cur.as_str().is_empty() {
        done.push(cur);
        proof {
            assert(strings_view(done@) =~= Seq::new((p.len() - 1) as nat, |j: int| strip_cr(p[j])).push(p.last()));
        }
    }
    done
}

/// The lines put back together with a `\n` between each two of them
/// (what `[String]::join("\n")` gives).
pub open spec fn join_lines(ls: Seq<Seq<char>>) -> Seq<char>
    decreases ls.len(),
{
    if ls.len() == 0 {
        Seq::empty()
    } else if ls.len() == 1 {
        ls[0]
    } else {
        join_lines(ls.drop_last()) + seq!['\n'] + ls.last()
    }
}

/// Joins lines with `\n` between them.
pub fn join_with_newlines(lines: &Vec<String>) -> (text: String)
    ensures
        text@ == join_lines(strings_view(lines@)),
{
    let mut text = String::new();
    let n = lines.len();
    for i in 0..n
        invariant
            n == lines@.len(),
            text@ == join_lines(strings_view(lines@).take(i as int)),
    {
        proof {
            assert(strings_view(lines@).take(i + 1).drop_last() =~= strings_view(lines@).take(i as int));
            if i == 0 {
                assert(strings_view(lines@).take(1) =~= seq![lines@[0]@]);
            }
        }
        if i > 0 {
            text.append("\n");
            proof {
                reveal_strlit("\n");
            }
        }
        text.append(lines[i].as_str());
    }
    proof {
        assert(strings_view(lines@).take(n as int) =~= strings_view(lines@));
    }
    text
}

/// No character of `l` is a newline.
pub open spec fn no_newline(l: Seq<char>) -> bool {
    forall|i: int| 0 <= i < l.len() ==> l[i] != '\n'
}

/// The lines a buffer shows for a file's contents: its lines, or one empty
/// line when it has none.
pub open spec fn file_lines(s: Seq<char>) -> Seq<Seq<char>> {
    if text_lines(s).len() == 0 {
        seq![Seq::<char>::empty()]
    } else {
        text_lines(s)
    }
}

proof fn lemma_pieces_extend(s: Seq<char>, t: Seq<char>)
    requires
        no_newline(t),
    ensures
        pieces(s + t) == pieces(s).update(pieces(s).len() - 1, pieces(s).last() + t),
        pieces(s + t).len() == pieces(s).len(),
    decreases t.len(),
{
    lemma_pieces_nonempty(s);
    if t.len() == 0 {
        assert(s + t =~= s);
        assert(pieces(s).last() + t =~= pieces(s).last());
        assert(pieces(s).update(pieces(s).len() - 1, pieces(s).last()) =~= pieces(s));
    } else {
        let t0 = t.drop_last();
        lemma_pieces_extend(s, t0);
        assert((s + t).drop_last() =~= s + t0);
        assert((s + t).last() == t.last());
        assert((pieces(s).last() + t0).push(t.last()) =~= pieces(s).last() + t);
        assert(pieces(s + t) =~= pieces(s).update(pieces(s).len() - 1, pieces(s).last() + t));
    }
}

proof fn lemma_pieces_join(ls: Seq<Seq<char>>)
    requires
        ls.len() >= 1,
        forall|i: int| 0 <= i < ls.len() ==> no_newline(#[trigger] ls[i]),
    ensures
        pieces(join_lines(ls)) == ls,
    decreases ls.len(),
{
    if ls.len() == 1 {
        lemma_pieces_extend(Seq::empty(), ls[0]);
        assert(Seq::<char>::empty() + ls[0] =~= ls[0]);
        assert(pieces(join_lines(ls)) =~= ls);
    } else {
        let front = ls.drop_last();
        lemma_pieces_join(front);
        let a = join_lines(front) + seq!['\n'];
        assert(a.drop_last() =~= join_lines(front));
        assert(pieces(a) == front.push(Seq::<char>::empty()));
        lemma_pieces_extend(a, ls.last());
        assert(Seq::<char>::empty() + ls.last() =~= ls.last());
        assert(pieces(join_lines(ls)) =~= ls);
    }
}

/// Law: reading back what was written gives the same lines, provided no line
/// holds a newline, no line but the last ends with a carriage return, and the
/// last line is not empty (unless it is the only one).
pub proof fn law_file_lines_of_join(ls: Seq<Seq<char>>)
    requires
        ls.len() >= 1,
        forall|i: int| 0 <= i < ls.len() ==> no_newline(#[trigger] ls[i]),
        forall|i: int| 0 <= i < ls.len() - 1 ==> strip_cr(#[trigger] ls[i]) == ls[i],
        ls.len() == 1 || ls.last().len() > 0,
    ensures
        file_lines(join_lines(ls)) == ls,
{
    lemma_pieces_join(ls);
    let p = pieces(join_lines(ls));
    let ended = Seq::new((p.len() - 1) as nat, |j: int| strip_cr(p[j]));
    assert(ended =~= ls.drop_last());
    if ls.last().len() == 0 {
        assert(ls.len() == 1);
        assert(file_lines(join_lines(ls)) =~= ls);
    } else {
        assert(ended.push(p.last()) =~= ls);
    }
}

/// `s` holds no carriage return.
pub open spec fn no_cr(s: Seq<char>) -> bool {
    forall|i: int| 0 <= i < s.len() ==> s[i] != '\r'
}

proof fn lemma_join_push_last(p: Seq<Seq<char>>, c: char)
    requires
        p.len() >= 1,
    ensures
        join_lines(p.update(p.len() - 1, p.last().push(c))) == join_lines(p).push(c),
{
    let q = p.update(p.len() - 1, p.last().push(c));
    if p.len() > 1 {
        assert(q.drop_last() =~= p.drop_last());
        assert(join_lines(p.drop_last()) + seq!['\n'] + p.last().push(c) =~= (join_lines(p.drop_last())
            + seq!['\n'] + p.last()).push(c));
    }
}

/// Joining the pieces of a text with newlines gives the text back.
proof fn lemma_join_pieces(s: Seq<char>)
    ensures
        join_lines(pieces(s)) == s,
    decreases s.len(),
{
    if s.len() == 0 {
        assert(join_lines(pieces(s)) =~= s);
    } else {
        let s0 = s.drop_last();
        lemma_join_pieces(s0);
        lemma_pieces_nonempty(s0);
        let p = pieces(s0);
        if s.last() == '\n' {
            assert(p.push(Seq::<char>::empty()).drop_last() =~= p);
            assert(join_lines(p) + seq!['\n'] + Seq::<char>::empty() =~= s);
        } else {
            lemma_join_push_last(p, s.last());
            assert(s0.push(s.last()) =~= s);
        }
    }
}

/// Without carriage returns in the text, none of its pieces ends with one.
proof fn lemma_pieces_no_cr(s: Seq<char>)
    requires
        no_cr(s),
    ensures
        forall|j: int| 0 <= j < pieces(s).len() ==> no_cr(#[trigger] pieces(s)[j]),
    decreases s.len(),
{
    if s.len() > 0 {
        let s0 = s.drop_last();
        assert(no_cr(s0)) by {
            assert forall|i: int| 0 <= i < s0.len() implies s0[i] != '\r' by {
                assert(s0[i] == s[i]);
            }
        }
        lemma_pieces_no_cr(s0);
        lemma_pieces_nonempty(s0);
        let p = pieces(s0);
        if s.last() != '\n' {
            let q = pieces(s);
            assert forall|j: int| 0 <= j < q.len() implies no_cr(#[trigger] q[j]) by {
                if j == q.len() - 1 {
                    assert(q[j] == p.last().push(s.last()));
                    assert(no_cr(p[p.len() - 1]));
                    assert forall|i: int| 0 <= i < q[j].len() implies q[j][i] != '\r' by {
                        if i < p.last().len() {
                            assert(q[j][i] == p.last()[i]);
                        }
                    }
                } else {
                    assert(q[j] == p[j]);
                }
            }
        } else {
            let q = pieces(s);
            assert forall|j: int| 0 <= j < q.len() implies no_cr(#[trigger] q[j]) by {
                if j < p.len() {
                    assert(q[j] == p[j]);
                }
            }
        }
    }
}

/// Law: the lines read from a text without carriage returns that does not
/// end with a newline, joined with newlines again, give back the text.
pub proof fn law_join_of_file_lines(s: Seq<char>)
    requires
        no_cr(s),
        s.len() == 0 || s.last() != '\n',
    ensures
        join_lines(file_lines(s)) == s,
{
    lemma_join_pieces(s);
    lemma_pieces_no_cr(s);
    lemma_pieces_nonempty(s);
    let p = pieces(s);
    let ended = Seq::new((p.len() - 1) as nat, |j: int| strip_cr(p[j]));
    assert forall|j: int| 0 <= j < ended.len() implies ended[j] == p[j] by {
        assert(no_cr(p[j]));
        if p[j].len() > 0 {
            assert(p[j][p[j].len() - 1] != '\r');
        }
    }
    if s.len() == 0 {
        assert(join_lines(file_lines(s)) =~= s);
    } else {
        assert(p.last().len() > 0);
        assert(text_lines(s) =~= p);
    }
}

/// The character of a decimal digit.
pub open spec fn digit_char(d: nat) -> char {
    ((48 + d) as u8) as char
}

/// The decimal digits of `n`, most significant first, without leading zeros
/// (what `usize`'s `Display` writes).
pub open spec fn decimal(n: nat) -> Seq<char>
    decreases n,
{
    if n < 10 {
        seq![digit_char(n)]
    } else {
        decimal(n / 10).push(digit_char(n % 10))
    }
}

/// The number a string of decimal digits stands for.
pub open spec fn decimal_value(s: Seq<char>) -> int
    decreases s.len(),
{
    if s.len() == 0 {
        0
    } else {
        decimal_value(s.drop_last()) * 10 + (s.last() as int - 48)
    }
}

/// The digits of `n` stand for `n`.
pub proof fn lemma_decimal_value(n: nat)
    ensures
        decimal_value(decimal(n)) == n,
    decreases n,
{
    if n < 10 {
        assert(decimal(n).drop_last() =~= Seq::<char>::empty());
        assert(digit_char(n) as int == 48 + n);
        assert(decimal_value(decimal(n)) == decimal_value(Seq::<char>::empty()) * 10 + (n as int));
    } else {
        lemma_decimal_value(n / 10);
        let d = decimal(n);
        assert(d == decimal(n / 10).push(digit_char(n % 10)));
        assert(d.drop_last() =~= decimal(n / 10));
        assert(d.last() == digit_char(n % 10));
        assert(digit_char(n % 10) as int == 48 + n % 10);
        assert(decimal_value(d) == decimal_value(decimal(n / 10)) * 10 + (n % 10));
        assert((n / 10) * 10 + n % 10 == n) by (nonlinear_arith);
    }
}

/// Law: different numbers have different decimal digits.
pub proof fn law_decimal_injective(n: nat, m: nat)
    ensures
        decimal(n) == decimal(m) ==> n == m,
{
    lemma_decimal_value(n);
    lemma_decimal_value(m);
}

/// Appends the decimal digits of `n` to `s`.
pub fn push_decimal(s: &mut String, n: usize)
    ensures
        final(s)@ == old(s)@ + decimal(n as nat),
    decreases n,
{
    if n >= 10 {
        push_decimal(s, n / 10);
    }
    let d: u8 = (n % 10) as u8;
    string_push(s, (48u8 + d) as char);
    proof {
        if n >= 10 {
            assert(old(s)@ + decimal(n as nat) =~= old(s)@ + decimal((n / 10) as nat) + seq![digit_char((n % 10) as nat)]);
        } else {
            assert(old(s)@ + decimal(n as nat) =~= old(s)@.push(digit_char(n as nat)));
        }
    }
}

/// `usize::to_string`.
pub fn decimal_string(n: usize) -> (s: String)
    ensures
        s@ == decimal(n as nat),
{
    let mut s = String::new();
    push_decimal(&mut s, n);
    proof {
        assert(Seq::<char>::empty() + decimal(n as nat) =~= decimal(n as nat));
    }
    s
}

/// `a` followed by `b`, as a new string.
pub fn concat(a: &str, b: &str) -> (r: String)
    ensures
        r@ == a@ + b@,
{
    let mut r = string_of(a);
    r.append(b);
    r
}

} // verus!
