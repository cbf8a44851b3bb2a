//! The fstab grammar: the list of filesystems to mount at boot, one
//! entry per line.
//!
//! A line holds six whitespace-separated fields — source, mount point,
//! filesystem type, comma-separated mount options, dump flag and fsck
//! pass number — with `#` starting a comment, `"` quoting and `\`
//! escaping inside a field.  The grammar is stated over sequences of
//! characters; the parser is proved to follow it exactly.  Reading the
//! file and issuing the mount calls is the runtime's business.

use vstd::prelude::*;

verus! {

broadcast use vstd::string::group_string_axioms;

use crate::util::string_from_chars;
use vstd::string::StrSliceExecFns;
use vstd::string::StringExecFns;

/// Enumeration of possible filesystem source types.
#[derive(Debug, PartialEq, Eq)]
pub enum FSSpec {
    /// Mounting from a file.
    File(String),
    /// Mounting from the given label.
    Label(String),
    /// Mounting from a partition UUID.
    Uuid(String),
}

/// The mathematical shape of a filesystem source.
pub ghost enum FSSpecView {
    File(Seq<char>),
    Label(Seq<char>),
    Uuid(Seq<char>),
}

impl View for FSSpec {
    type V = FSSpecView;

    open spec fn view(&self) -> FSSpecView {
        match self {
            FSSpec::File(s) => FSSpecView::File(s@),
            FSSpec::Label(s) => FSSpecView::Label(s@),
            FSSpec::Uuid(s) => FSSpecView::Uuid(s@),
        }
    }
}

/// Structure representing an entry in the fstab file.
pub struct FSTabEntry {
    /// The source of the filesystem.
    pub fs_spec: FSSpec,
    /// The file on which the filesystem will be mounted.
    pub fs_file: String,
    /// The filesystem type.
    pub fs_vfstype: String,
    /// The mount options associated with the filesystem.
    pub fs_mntops: Vec<String>,
    /// Tells whether the filesystem has to be dumped.
    pub fs_freq: bool,
    /// Tells the order in which fsck checks the filesystems.
    pub fs_passno: u32,
}

/// The mathematical shape of an fstab entry.
pub ghost struct FSTabEntryView {
    pub fs_spec: FSSpecView,
    pub fs_file: Seq<char>,
    pub fs_vfstype: Seq<char>,
    pub fs_mntops: Seq<Seq<char>>,
    pub fs_freq: bool,
    pub fs_passno: u32,
}

impl View for FSTabEntry {
    type V = FSTabEntryView;

    open spec fn view(&self) -> FSTabEntryView {
        FSTabEntryView {
            fs_spec: self.fs_spec@,
            fs_file: self.fs_file@,
            fs_vfstype: self.fs_vfstype@,
            fs_mntops: self.fs_mntops.deep_view(),
            fs_freq: self.fs_freq,
            fs_passno: self.fs_passno,
        }
    }
}

/// The whitespace characters, as Unicode defines the property.
pub open spec fn is_ws(c: char) -> bool {
    ||| c == ' '
    ||| c == '\t'
    ||| c == '\n'
    ||| c == '\r'
    ||| c == '\u{b}'
    ||| c == '\u{c}'
    ||| c == '\u{85}'
    ||| c == '\u{a0}'
    ||| c == '\u{1680}'
    ||| (0x2000 <= c as u32 && c as u32 <= 0x200a)
    ||| c == '\u{2028}'
    ||| c == '\u{2029}'
    ||| c == '\u{202f}'
    ||| c == '\u{205f}'
    ||| c == '\u{3000}'
}

/// Decides the whitespace property of one character.
pub fn ws(c: char) -> (b: bool)
    ensures
        b == is_ws(c),
{
    c == ' ' || c == '\t' || c == '\n' || c == '\r' || c == '\u{b}' || c == '\u{c}'
        || c == '\u{85}' || c == '\u{a0}' || c == '\u{1680}' || (0x2000 <= c as u32 && c
        as u32 <= 0x200a) || c == '\u{2028}' || c == '\u{2029}' || c == '\u{202f}' || c
        == '\u{205f}' || c == '\u{3000}'
}

/// The position of the first non-whitespace character at or after `i`.
pub open spec fn spec_skip_ws(s: Seq<char>, i: int) -> int
    decreases s.len() - i,
{
    if 0 <= i < s.len() && is_ws(s[i]) {
        spec_skip_ws(s, i + 1)
    } else {
        i
    }
}

/// What one token read from position `i` yields: the token's characters
/// (quotes removed, escapes resolved) and the position after it, or
/// nothing when a quote or a trailing escape is left open.  Outside
/// quotes, whitespace or `#` ends the token.
pub open spec fn spec_token(s: Seq<char>, i: int, quote: bool) -> Option<(Seq<char>, int)>
    decreases s.len() - i,
{
    if !(0 <= i < s.len()) {
        if quote {
            None
        } else {
            Some((Seq::empty(), i))
        }
    } else {
        let c = s[i];
        if !quote && (is_ws(c) || c == '#') {
            Some((Seq::empty(), i))
        } else if c == '"' {
            spec_token(s, i + 1, !quote)
        } else if c == '\\' {
            if i + 1 >= s.len() {
                None
            } else {
                match spec_token(s, i + 2, quote) {
                    None => None,
                    Some(r) => Some((seq![s[i + 1]] + r.0, r.1)),
                }
            }
        } else {
            match spec_token(s, i + 1, quote) {
                None => None,
                Some(r) => Some((seq![c] + r.0, r.1)),
            }
        }
    }
}

/// Collects the characters of a string slice.
pub fn chars_of(s: &str) -> (v: Vec<char>)
    ensures
        v@ == s@,
{
    let mut v: Vec<char> = Vec::new();
    for c in it: s.chars()
        invariant
            it.seq() == s@,
            v@ == s@.take(it.index() as int),
    {
        v.push(c);
    }
    proof {
        assert(v@ =~= s@);
    }
    v
}

/// Skips whitespace, returning the position of the first character of
/// interest at or after `pos`.
pub fn skip_whitespaces(chars: &Vec<char>, pos: usize) -> (r: usize)
    requires
        pos <= chars@.len(),
    ensures
        r == spec_skip_ws(chars@, pos as int),
        pos <= r <= chars@.len(),
        r < chars@.len() ==> !is_ws(chars@[r as int]),
{
    let mut i: usize = pos;
    while i < chars.len()
        invariant
            pos <= i <= chars@.len(),
            spec_skip_ws(chars@, pos as int) == spec_skip_ws(chars@, i as int),
        decreases chars@.len() - i,
    {
        if !ws(chars[i]) {
            return i;
        }
        i += 1;
    }
    i
}

/// Consumes a token starting at `pos`.  If the token is left open by an
/// unmatched quote or a trailing escape, the function returns `None`;
/// otherwise it returns the token's characters and the position after
/// it.
pub fn consume_token(chars: &Vec<char>, pos: usize) -> (r: Option<(Vec<char>, usize)>)
    requires
        pos <= chars@.len(),
    ensures
        r is Some <==> spec_token(chars@, pos as int, false) is Some,
        r is Some ==> ({
            let t = spec_token(chars@, pos as int, false)->0;
            let x = r->0;
            x.0@ == t.0 && x.1 == t.1 && pos <= x.1 <= chars@.len()
        }),
{
    let ghost s = chars@;
    let mut i: usize = pos;
    let mut quote = false;
    let mut tok: Vec<char> = Vec::new();
    loop
        invariant
            pos <= i <= s.len(),
            chars@ == s,
            spec_token(s, pos as int, false) == match spec_token(s, i as int, quote) {
                None => None::<(Seq<char>, int)>,
                Some(r) => Some((tok@ + r.0, r.1)),
            },
        decreases s.len() - i,
    {
        if i == chars.len() {
            if quote {
                return None;
            } else {
                proof {
                    assert(spec_token(s, i as int, quote) == Some((Seq::<char>::empty(), i as int)));
                    assert(tok@ + Seq::<char>::empty() =~= tok@);
                }
                return Some((tok, i));
            }
        }
        let c = chars[i];
        if !quote && (ws(c) || c == '#') {
            proof {
                assert(spec_token(s, i as int, quote) == Some((Seq::<char>::empty(), i as int)));
                assert(tok@ + Seq::<char>::empty() =~= tok@);
            }
            return Some((tok, i));
        }
        if c == '"' {
            proof {
                assert(spec_token(s, i as int, quote) == spec_token(s, i as int + 1, !quote));
            }
            quote = !quote;
            i += 1;
        } else if c == '\\' {
            if i + 1 == chars.len() {
                proof {
                    assert(spec_token(s, i as int, quote) is None);
                }
                return None;
            }
            let escaped = chars[i + 1];
            proof {
                let ghost old_tok = tok@;
                assert(spec_token(s, i as int, quote) == match spec_token(s, i as int + 2, quote) {
                    None => None::<(Seq<char>, int)>,
                    Some(r) => Some((seq![s[i as int + 1]] + r.0, r.1)),
                });
                assert forall|r0: Seq<char>| true implies old_tok + (seq![escaped] + r0) =~= (
                old_tok + seq![escaped]) + r0 by {}
            }
            tok.push(escaped);
            i += 2;
        } else {
            proof {
                let ghost old_tok = tok@;
                assert(spec_token(s, i as int, quote) == match spec_token(s, i as int + 1, quote) {
                    None => None::<(Seq<char>, int)>,
                    Some(r) => Some((seq![s[i as int]] + r.0, r.1)),
                });
                assert forall|r0: Seq<char>| true implies old_tok + (seq![c] + r0) =~= (old_tok
                    + seq![c]) + r0 by {}
            }
            tok.push(c);
            i += 1;
        }
    }
}

/// The fields of a line read from position `i`, with at most `max`
/// fields allowed: the tokens before the line's end or a comment, or
/// nothing when a token is left open or too many fields remain.
pub open spec fn spec_fields(s: Seq<char>, i: int, max: nat) -> Option<Seq<Seq<char>>>
    decreases max,
{
    let j = spec_skip_ws(s, i);
    if j >= s.len() || s[j] == '#' {
        Some(Seq::empty())
    } else if max == 0 {
        None
    } else {
        match spec_token(s, j, false) {
            None => None,
            Some(t) => match spec_fields(s, t.1, (max - 1) as nat) {
                None => None,
                Some(rest) => Some(seq![t.0] + rest),
            },
        }
    }
}

/// A digit character.
pub open spec fn is_digit(c: char) -> bool {
    0x30 <= c as u32 <= 0x39
}

/// Whether every character of the sequence is a digit.
pub open spec fn all_digits(s: Seq<char>) -> bool {
    forall|k: int| 0 <= k < s.len() ==> is_digit(#[trigger] s[k])
}

/// The value of a sequence of digits, most significant first.
pub open spec fn spec_digits_val(s: Seq<char>) -> int
    decreases s.len(),
{
    if s.len() == 0 {
        0
    } else {
        spec_digits_val(s.drop_last()) * 10 + (s.last() as u32 - 0x30)
    }
}

/// What parsing a decimal number yields: an optional `+` sign, then at
/// least one digit, and a value that fits.
pub open spec fn spec_parse_u32(s: Seq<char>) -> Option<u32> {
    let body = if s.len() > 0 && s[0] == '+' {
        s.skip(1)
    } else {
        s
    };
    if body.len() > 0 && all_digits(body) && spec_digits_val(body) <= u32::MAX {
        Some(spec_digits_val(body) as u32)
    } else {
        None
    }
}

/// Splitting on a separator: the empty input is one empty piece, a
/// leading separator opens a new empty piece, and any other character
/// extends the first piece.
pub open spec fn spec_split(s: Seq<char>, sep: char) -> Seq<Seq<char>>
    decreases s.len(),
{
    if s.len() == 0 {
        seq![Seq::<char>::empty()]
    } else if s[0] == sep {
        seq![Seq::<char>::empty()] + spec_split(s.skip(1), sep)
    } else {
        let rest = spec_split(s.skip(1), sep);
        seq![seq![s[0]] + rest[0]] + rest.skip(1)
    }
}

/// A split has at least one piece.
pub proof fn lemma_split_len(s: Seq<char>, sep: char)
    ensures
        spec_split(s, sep).len() >= 1,
    decreases s.len(),
{
    if s.len() > 0 {
        lemma_split_len(s.skip(1), sep);
    }
}

/// What reading a filesystem source yields: a `LABEL=` or `UUID=`
/// prefix selects the variant, anything else names a file.
pub open spec fn spec_fs_spec(s: Seq<char>) -> FSSpecView {
    if s.len() >= 6 && s.take(6) == "LABEL="@ {
        FSSpecView::Label(s.skip(6))
    } else if s.len() >= 5 && s.take(5) == "UUID="@ {
        FSSpecView::Uuid(s.skip(5))
    } else {
        FSSpecView::File(s)
    }
}

/// The entry six fields describe, if the pass number is a number.
pub open spec fn spec_entry_of(ts: Seq<Seq<char>>) -> Option<FSTabEntryView> {
    if ts.len() != 6 {
        None
    } else {
        match spec_parse_u32(ts[5]) {
            None => None,
            Some(p) => Some(
                FSTabEntryView {
                    fs_spec: spec_fs_spec(ts[0]),
                    fs_file: ts[1],
                    fs_vfstype: ts[2],
                    fs_mntops: spec_split(ts[3], ','),
                    fs_freq: ts[4] != seq!['0'],
                    fs_passno: p,
                },
            ),
        }
    }
}

/// What parsing one line yields: exactly six well-formed fields make an
/// entry; anything else — including a line that is empty, pure comment,
/// short, long, or whose pass number is not a number — makes nothing.
pub open spec fn spec_parse_line(s: Seq<char>) -> Option<FSTabEntryView> {
    match spec_fields(s, 0, 6) {
        None => None,
        Some(ts) => spec_entry_of(ts),
    }
}

/// What parsing a file's lines yields: the entries of the valid lines,
/// in order; invalid lines are ignored.
pub open spec fn spec_parse_lines(ls: Seq<Seq<char>>) -> Seq<FSTabEntryView>
    decreases ls.len(),
{
    if ls.len() == 0 {
        Seq::empty()
    } else {
        let rest = spec_parse_lines(ls.skip(1));
        match spec_parse_line(ls[0]) {
            None => rest,
            Some(e) => seq![e] + rest,
        }
    }
}

/// A digit sequence is never worth a negative value.
proof fn lemma_digits_val_nonneg(s: Seq<char>)
    requires
        all_digits(s),
    ensures
        spec_digits_val(s) >= 0,
    decreases s.len(),
{
    if s.len() > 0 {
        assert(forall|k: int| 0 <= k < s.drop_last().len() ==> is_digit(#[trigger] s.drop_last()[k]));
        lemma_digits_val_nonneg(s.drop_last());
    }
}

/// A digit sequence is worth at least as much as each of its prefixes.
proof fn lemma_digits_val_prefix(s: Seq<char>, j: int)
    requires
        all_digits(s),
        0 <= j <= s.len(),
    ensures
        spec_digits_val(s) >= spec_digits_val(s.take(j)),
    decreases s.len() - j,
{
    if j == s.len() {
        assert(s.take(j) =~= s);
    } else {
        assert(s.take(j + 1).drop_last() =~= s.take(j));
        assert(forall|k: int| 0 <= k < s.take(j) .len() ==> is_digit(#[trigger] s.take(j)[k]));
        lemma_digits_val_nonneg(s.take(j));
        assert(spec_digits_val(s.take(j + 1)) == spec_digits_val(s.take(j)) * 10 + (s[j] as u32
            - 0x30));
        lemma_digits_val_prefix(s, j + 1);
    }
}

/// Parses a decimal number, as the pass-number field requires: an
/// optional `+` sign, then at least one digit, rejecting overflow.
pub fn parse_u32(tok: &Vec<char>) -> (r: Option<u32>)
    ensures
        r == spec_parse_u32(tok@),
{
    let ghost s = tok@;
    let n = tok.len();
    let start: usize = if n > 0 && tok[0] == '+' {
        1
    } else {
        0
    };
    let ghost body = if s.len() > 0 && s[0] == '+' {
        s.skip(1)
    } else {
        s
    };
    proof {
        assert(body =~= s.skip(start as int));
    }
    if n == start {
        return None;
    }
    let mut acc: u64 = 0;
    let mut k: usize = start;
    while k < n
        invariant
            start <= k <= n,
            n == s.len(),
            tok@ == s,
            body == s.skip(start as int),
            body == (if s.len() > 0 && s[0] == '+' {
                s.skip(1)
            } else {
                s
            }),
            body.len() == n - start,
            forall|j: int| 0 <= j < k - start ==> is_digit(#[trigger] body[j]),
            acc == spec_digits_val(body.take(k - start)),
            acc <= u32::MAX,
        decreases n - k,
    {
        let c = tok[k];
        let cu = c as u32;
        proof {
            assert(body[k - start] == s[k as int]);
        }
        if cu < 0x30 || cu > 0x39 {
            proof {
                assert(!is_digit(body[k - start]));
                assert(!all_digits(body));
            }
            return None;
        }
        let d = cu - 0x30;
        proof {
            assert(body.take(k - start + 1).drop_last() =~= body.take(k - start));
            assert(body.take(k - start + 1).last() == body[k - start]);
        }
        acc = acc * 10 + d as u64;
        if acc > u32::MAX as u64 {
            proof {
                if all_digits(body) {
                    lemma_digits_val_prefix(body, k - start + 1);
                }
            }
            return None;
        }
        k += 1;
    }
    proof {
        assert(body.take(n - start) =~= body);
    }
    Some(acc as u32)
}

/// The textual form of a filesystem source, as the fstab file writes
/// it.
pub open spec fn spec_source_string(v: FSSpecView) -> Seq<char> {
    match v {
        FSSpecView::File(s) => s,
        FSSpecView::Label(s) => "LABEL="@ + s,
        FSSpecView::Uuid(s) => "UUID="@ + s,
    }
}

impl FSSpec {
    /// Writes the source as the fstab file would: a label as
    /// `LABEL=...`, a UUID as `UUID=...`, a file as its path.
    pub fn source_string(&self) -> (r: String)
        ensures
            r@ == spec_source_string(self@),
    {
        match self {
            FSSpec::File(s) => s.clone(),
            FSSpec::Label(s) => {
                let mut r = String::from_str("LABEL=");
                r.append(s.as_str());
                r
            },
            FSSpec::Uuid(s) => {
                let mut r = String::from_str("UUID=");
                r.append(s.as_str());
                r
            },
        }
    }

    /// Reads a filesystem source from its field.
    pub fn from_str(s: &str) -> (r: FSSpec)
        ensures
            r@ == spec_fs_spec(s@),
    {
        let n = s.unicode_len();
        if n >= 6 && s.get_char(0) == 'L' && s.get_char(1) == 'A' && s.get_char(2) == 'B'
            && s.get_char(3) == 'E' && s.get_char(4) == 'L' && s.get_char(5) == '=' {
            proof {
                reveal_strlit("LABEL=");
                assert(s@.take(6) =~= "LABEL="@);
            }
            let rest = s.substring_char(6, n).to_owned();
            proof {
                assert(rest@ =~= s@.skip(6));
            }
            FSSpec::Label(rest)
        } else if n >= 5 && s.get_char(0) == 'U' && s.get_char(1) == 'U' && s.get_char(2) == 'I'
            && s.get_char(3) == 'D' && s.get_char(4) == '=' {
            proof {
                reveal_strlit("LABEL=");
                reveal_strlit("UUID=");
                assert(s@.take(5) =~= "UUID="@);
                assert(!(s@.len() >= 6 && s@.take(6) == "LABEL="@)) by {
                    if s@.len() >= 6 && s@.take(6) == "LABEL="@ {
                        assert(s@[0] == "LABEL="@[0]);
                    }
                }
            }
            let rest = s.substring_char(5, n).to_owned();
            proof {
                assert(rest@ =~= s@.skip(5));
            }
            FSSpec::Uuid(rest)
        } else {
            proof {
                reveal_strlit("LABEL=");
                reveal_strlit("UUID=");
                assert(!(s@.len() >= 6 && s@.take(6) == "LABEL="@)) by {
                    if s@.len() >= 6 && s@.take(6) == "LABEL="@ {
                        assert(s@[0] == 'L' && s@[1] == 'A' && s@[2] == 'B' && s@[3] == 'E'
                            && s@[4] == 'L' && s@[5] == '=') by {
                            assert(s@.take(6)[0] == s@[0] && s@.take(6)[1] == s@[1] && s@.take(6)[2]
                                == s@[2] && s@.take(6)[3] == s@[3] && s@.take(6)[4] == s@[4]
                                && s@.take(6)[5] == s@[5]);
                        }
                    }
                }
                assert(!(s@.len() >= 5 && s@.take(5) == "UUID="@)) by {
                    if s@.len() >= 5 && s@.take(5) == "UUID="@ {
                        assert(s@[0] == 'U' && s@[1] == 'U' && s@[2] == 'I' && s@[3] == 'D'
                            && s@[4] == '=') by {
                            assert(s@.take(5)[0] == s@[0] && s@.take(5)[1] == s@[1] && s@.take(5)[2]
                                == s@[2] && s@.take(5)[3] == s@[3] && s@.take(5)[4] == s@[4]);
                        }
                    }
                }
            }
            FSSpec::File(s.to_owned())
        }
    }
}

/// The pieces already cut, with the piece being read in front of what
/// remains.
pub open spec fn spec_split_from(acc: Seq<char>, rem: Seq<char>, sep: char) -> Seq<Seq<char>> {
    seq![acc + spec_split(rem, sep)[0]] + spec_split(rem, sep).skip(1)
}

/// Splits a field on a separator; an empty field yields one empty
/// piece.
pub fn split_field(tok: &Vec<char>, sep: char) -> (pieces: Vec<String>)
    ensures
        pieces.deep_view() == spec_split(tok@, sep),
{
    let ghost s = tok@;
    let mut pieces: Vec<String> = Vec::new();
    let mut acc: Vec<char> = Vec::new();
    let mut k: usize = 0;
    let n = tok.len();
    proof {
        assert(s.skip(0) =~= s);
    }
    while k < n
        invariant
            k <= n,
            n == s.len(),
            tok@ == s,
            pieces.deep_view() + spec_split_from(acc@, s.skip(k as int), sep) =~~= spec_split(
                s,
                sep,
            ),
        decreases n - k,
    {
        let ghost rem = s.skip(k as int);
        let ghost rest = s.skip(k as int + 1);
        proof {
            assert(rem.len() > 0 && rem[0] == s[k as int]);
            assert(rem.skip(1) =~= rest);
            lemma_split_len(rest, sep);
        }
        let c = tok[k];
        if c == sep {
            proof {
                assert(spec_split(rem, sep) == seq![Seq::<char>::empty()] + spec_split(rest, sep));
                assert(spec_split(rem, sep)[0] =~= Seq::<char>::empty());
                assert(acc@ + Seq::<char>::empty() =~= acc@);
                assert((seq![Seq::<char>::empty()] + spec_split(rest, sep)).skip(1) =~~= spec_split(
                    rest,
                    sep,
                ));
                assert(spec_split_from(acc@, rem, sep) =~~= seq![acc@] + spec_split(rest, sep));
                assert(Seq::<char>::empty() + spec_split(rest, sep)[0] =~= spec_split(rest, sep)[0]);
                assert(spec_split_from(Seq::<char>::empty(), rest, sep) =~~= spec_split(rest, sep));
            }
            let piece = string_from_chars(&acc);
            pieces.push(piece);
            acc.clear();
        } else {
            proof {
                assert(spec_split(rem, sep) == seq![seq![rem[0]] + spec_split(rest, sep)[0]]
                    + spec_split(rest, sep).skip(1));
                assert(acc@ + (seq![c] + spec_split(rest, sep)[0]) =~= (acc@ + seq![c]) + spec_split(
                    rest,
                    sep,
                )[0]);
                assert(spec_split_from(acc@, rem, sep) =~~= spec_split_from(
                    acc@ + seq![c],
                    rest,
                    sep,
                ));
                assert((acc@ + seq![c]) =~= acc@.push(c));
            }
            acc.push(c);
        }
        k += 1;
    }
    proof {
        assert(s.skip(n as int) =~= Seq::<char>::empty());
        assert(spec_split(Seq::<char>::empty(), sep) == seq![Seq::<char>::empty()]);
        assert(acc@ + Seq::<char>::empty() =~= acc@);
        assert(spec_split_from(acc@, Seq::<char>::empty(), sep) =~~= seq![acc@]);
    }
    let piece = string_from_chars(&acc);
    pieces.push(piece);
    pieces
}

/// Collects the fields of one line, or nothing when the line holds an
/// open token or more than six fields.
fn collect_fields(chars: &Vec<char>) -> (r: Option<Vec<Vec<char>>>)
    ensures
        r is Some <==> spec_fields(chars@, 0, 6) is Some,
        r is Some ==> ({
            let ts = spec_fields(chars@, 0, 6)->0;
            let fs = r->0@;
            fs.len() == ts.len() && forall|i: int| 0 <= i < ts.len() ==> (#[trigger] fs[i])@ == ts[i]
        }),
{
    let ghost s = chars@;
    let mut fields: Vec<Vec<char>> = Vec::new();
    let ghost mut done: Seq<Seq<char>> = Seq::empty();
    let mut pos: usize = 0;
    proof {
        assert(done + spec_fields(s, 0, 6)->0 =~~= spec_fields(s, 0, 6)->0);
    }
    loop
        invariant
            pos <= s.len(),
            chars@ == s,
            fields@.len() <= 6,
            done.len() == fields@.len(),
            forall|i: int| 0 <= i < done.len() ==> (#[trigger] fields@[i])@ == done[i],
            spec_fields(s, 0, 6) == (match spec_fields(s, pos as int, (6 - fields@.len()) as nat) {
                None => None::<Seq<Seq<char>>>,
                Some(rest) => Some(done + rest),
            }),
        ensures
            spec_fields(s, 0, 6) == Some(done),
            done.len() == fields@.len(),
            forall|i: int| 0 <= i < done.len() ==> (#[trigger] fields@[i])@ == done[i],
        decreases 7 - fields@.len(),
    {
        let j = skip_whitespaces(chars, pos);
        let ghost max = (6 - fields@.len()) as nat;
        if j == chars.len() {
            proof {
                assert(spec_fields(s, pos as int, max) == Some(Seq::<Seq<char>>::empty()));
                assert(done + Seq::<Seq<char>>::empty() =~~= done);
            }
            break;
        }
        if chars[j] == '#' {
            proof {
                assert(spec_fields(s, pos as int, max) == Some(Seq::<Seq<char>>::empty()));
                assert(done + Seq::<Seq<char>>::empty() =~~= done);
            }
            break;
        }
        if fields.len() == 6 {
            proof {
                assert(spec_fields(s, pos as int, max) is None);
            }
            return None;
        }
        match consume_token(chars, j) {
            None => {
                proof {
                    assert(spec_fields(s, pos as int, max) is None);
                }
                return None;
            },
            Some((tok, end)) => {
                proof {
                    let t = spec_token(s, j as int, false)->0;
                    assert(spec_fields(s, pos as int, max) == (match spec_fields(
                        s,
                        t.1,
                        (max - 1) as nat,
                    ) {
                        None => None::<Seq<Seq<char>>>,
                        Some(rest) => Some(seq![t.0] + rest),
                    }));
                    assert forall|rest: Seq<Seq<char>>| true implies done + (seq![tok@] + rest)
                        =~~= done.push(tok@) + rest by {}
                }
                proof {
                    done = done.push(tok@);
                }
                fields.push(tok);
                pos = end;
            },
        }
    }
    Some(fields)
}

/// Parses the given line.
///
/// If no entry is present on the line or if the entry is invalid, the
/// function returns `None`.
pub fn parse_line(line: &str) -> (r: Option<FSTabEntry>)
    ensures
        r is Some <==> spec_parse_line(line@) is Some,
        r is Some ==> r->0@ == spec_parse_line(line@)->0,
{
    let chars = chars_of(line);
    let fields = match collect_fields(&chars) {
        None => {
            return None;
        },
        Some(f) => f,
    };
    let ghost ts = spec_fields(line@, 0, 6)->0;
    if fields.len() != 6 {
        return None;
    }
    let passno = match parse_u32(&fields[5]) {
        None => {
            return None;
        },
        Some(p) => p,
    };
    let spec_str = string_from_chars(&fields[0]);
    let fs_spec = FSSpec::from_str(spec_str.as_str());
    let fs_file = string_from_chars(&fields[1]);
    let fs_vfstype = string_from_chars(&fields[2]);
    let fs_mntops = split_field(&fields[3], ',');
    let freq_field = &fields[4];
    let fs_freq = !(freq_field.len() == 1 && freq_field[0] == '0');
    proof {
        assert((freq_field@ == seq!['0']) <==> (freq_field@.len() == 1 && freq_field@[0] == '0'))
            by {
            if freq_field@.len() == 1 && freq_field@[0] == '0' {
                assert(freq_field@ =~= seq!['0']);
            }
        }
    }
    let entry = FSTabEntry { fs_spec, fs_file, fs_vfstype, fs_mntops, fs_freq, fs_passno: passno };
    proof {
        assert(entry@ == spec_entry_of(ts)->0);
    }
    Some(entry)
}

/// Parses the lines of the fstab file and returns the list of entries,
/// in order.
///
/// Invalid lines are ignored.
pub fn parse(lines: &Vec<String>) -> (entries: Vec<FSTabEntry>)
    ensures
        entries@.map_values(|e: FSTabEntry| e@) == spec_parse_lines(lines.deep_view()),
{
    let ghost ls = lines.deep_view();
    let mut entries: Vec<FSTabEntry> = Vec::new();
    let mut i: usize = 0;
    let n = lines.len();
    proof {
        assert(ls.skip(0) =~= ls);
        assert(entries@.map_values(|e: FSTabEntry| e@) =~~= Seq::<FSTabEntryView>::empty());
    }
    while i < n
        invariant
            i <= n,
            n == lines@.len(),
            ls == lines.deep_view(),
            ls.len() == n,
            entries@.map_values(|e: FSTabEntry| e@) + spec_parse_lines(ls.skip(i as int))
                =~~= spec_parse_lines(ls),
        decreases n - i,
    {
        let ghost rest = ls.skip(i as int);
        proof {
            assert(rest.skip(1) =~= ls.skip(i as int + 1));
            assert(rest[0] == lines@[i as int]@);
        }
        let ghost before = entries@;
        match parse_line(lines[i].as_str()) {
            Some(e) => {
                proof {
                    assert(spec_parse_lines(rest) == seq![spec_parse_line(rest[0])->0]
                        + spec_parse_lines(rest.skip(1)));
                }
                entries.push(e);
                proof {
                    assert(entries@.map_values(|x: FSTabEntry| x@) =~~= before.map_values(
                        |x: FSTabEntry| x@,
                    ) + seq![e@]);
                    assert(before.map_values(|x: FSTabEntry| x@) + (seq![e@] + spec_parse_lines(
                        rest.skip(1),
                    )) =~~= (before.map_values(|x: FSTabEntry| x@) + seq![e@]) + spec_parse_lines(
                        rest.skip(1),
                    ));
                }
            },
            None => {
                proof {
                    assert(spec_parse_lines(rest) == spec_parse_lines(rest.skip(1)));
                }
            },
        }
        i += 1;
    }
    proof {
        assert(ls.skip(n as int) =~= Seq::<Seq<char>>::empty());
        assert(entries@.map_values(|e: FSTabEntry| e@) + Seq::<FSTabEntryView>::empty()
            =~~= entries@.map_values(|e: FSTabEntry| e@));
    }
    entries
}

} // verus!
