//! The command language: one line of text parsed into a typed request.
use vstd::prelude::*;
use crate::error::FerrisError;
use crate::text::same_text;

verus! {

/// A validated request, parsed from one line of client input.
#[derive(Debug)]
pub enum Command {
    Ping,
    Get { key: String },
    SetValue { key: String, value: String, ttl: Option<u64> },
    Delete { key: String },
    Rename { old_key: String, new_key: String },
    Expire { key: String, ttl: u64 },
    Ttl { key: String },
    Keys,
    Count,
    Clear,
}

/// The characters with the Unicode `White_Space` property.
pub open spec fn is_ws(c: char) -> bool {
    ('\u{9}' <= c && c <= '\u{d}') || c == ' ' || c == '\u{85}' || c == '\u{a0}' || c == '\u{1680}'
        || ('\u{2000}' <= c && c <= '\u{200a}') || c == '\u{2028}' || c == '\u{2029}' || c
        == '\u{202f}' || c == '\u{205f}' || c == '\u{3000}'
}

/// `s` without its leading whitespace.
pub open spec fn trim_start(s: Seq<char>) -> Seq<char>
    decreases s.len(),
{
    if s.len() > 0 && is_ws(s[0]) {
        trim_start(s.drop_first())
    } else {
        s
    }
}

/// `s` without its trailing whitespace.
pub open spec fn trim_end(s: Seq<char>) -> Seq<char>
    decreases s.len(),
{
    if s.len() > 0 && is_ws(s.last()) {
        trim_end(s.drop_last())
    } else {
        s
    }
}

/// `s` without leading and trailing whitespace.
pub open spec fn trim(s: Seq<char>) -> Seq<char> {
    trim_end(trim_start(s))
}

/// The number of characters before the first space of `s` (all of them when
/// there is none).
pub open spec fn word_len(s: Seq<char>) -> nat
    decreases s.len(),
{
    if s.len() == 0 || s[0] == ' ' {
        0
    } else {
        1 + word_len(s.drop_first())
    }
}

/// `s` split at single spaces into at most `n` fields; the last field keeps
/// the rest of `s`, spaces included.
pub open spec fn split_fields(s: Seq<char>, n: nat) -> Seq<Seq<char>>
    decreases s.len(),
{
    let w = word_len(s);
    if n <= 1 || w >= s.len() {
        seq![s]
    } else {
        seq![s.take(w as int)] + split_fields(s.skip(w as int + 1), (n - 1) as nat)
    }
}

/// The fields of a request line: the line trimmed, then split into at most
/// four fields.
pub open spec fn fields(line: Seq<char>) -> Seq<Seq<char>> {
    split_fields(trim(line), 4)
}

pub open spec fn is_digit(c: char) -> bool {
    '0' <= c && c <= '9'
}

pub open spec fn all_digits(d: Seq<char>) -> bool {
    forall|i: int| 0 <= i < d.len() ==> is_digit(#[trigger] d[i])
}

/// The number that a sequence of decimal digits denotes.
pub open spec fn digits_value(d: Seq<char>) -> nat
    decreases d.len(),
{
    if d.len() == 0 {
        0
    } else {
        digits_value(d.drop_last()) * 10 + ((d.last() as nat) - 48) as nat
    }
}

/// The unsigned 64-bit number that `s` denotes: an optional `+`, then one or
/// more decimal digits, the value fitting in 64 bits.
pub open spec fn u64_of(s: Seq<char>) -> Option<u64> {
    let d = if s.len() > 0 && s[0] == '+' {
        s.drop_first()
    } else {
        s
    };
    if d.len() > 0 && all_digits(d) && digits_value(d) <= u64::MAX {
        Some(digits_value(d) as u64)
    } else {
        None
    }
}

/// The outcome `r` is what parsing `line` gives: the fields are matched
/// against the grammar from top to bottom, and the first rule that matches
/// decides.
pub open spec fn parsed_as(line: Seq<char>, r: Result<Command, FerrisError>) -> bool {
    let f = fields(line);
    if f.len() == 1 && f[0] == "PING"@ {
        r matches Ok(Command::Ping)
    } else if f.len() == 2 && f[0] == "GET"@ {
        r matches Ok(Command::Get { key }) && key@ == f[1]
    } else if f.len() == 4 && f[0] == "SET"@ {
        match u64_of(f[3]) {
            Some(n) => r matches Ok(Command::SetValue { key, value, ttl }) && key@ == f[1] && value@
                == f[2] && ttl == Some(n),
            None => r matches Err(FerrisError::InvalidTTL(x)) && x@ == f[3],
        }
    } else if f.len() == 3 && f[0] == "SET"@ {
        r matches Ok(Command::SetValue { key, value, ttl }) && key@ == f[1] && value@ == f[2] && ttl
            is None
    } else if f.len() == 2 && f[0] == "DELETE"@ {
        r matches Ok(Command::Delete { key }) && key@ == f[1]
    } else if f.len() == 3 && f[0] == "RENAME"@ {
        r matches Ok(Command::Rename { old_key, new_key }) && old_key@ == f[1] && new_key@ == f[2]
    } else if f.len() == 3 && f[0] == "EXPIRE"@ {
        match u64_of(f[2]) {
            Some(n) => r matches Ok(Command::Expire { key, ttl }) && key@ == f[1] && ttl == n,
            None => r matches Err(FerrisError::InvalidTTL(x)) && x@ == f[2],
        }
    } else if f.len() == 2 && f[0] == "TTL"@ {
        r matches Ok(Command::Ttl { key }) && key@ == f[1]
    } else if f.len() == 1 && f[0] == "KEYS"@ {
        r matches Ok(Command::Keys)
    } else if f.len() == 1 && f[0] == "COUNT"@ {
        r matches Ok(Command::Count)
    } else if f.len() == 1 && f[0] == "CLEAR"@ {
        r matches Ok(Command::Clear)
    } else {
        r matches Err(FerrisError::InvalidCommand(x)) && x@ == trim(line)
    }
}

fn is_whitespace(c: char) -> (r: bool)
    ensures
        r == is_ws(c),
{
    ('\u{9}' <= c && c <= '\u{d}') || c == ' ' || c == '\u{85}' || c == '\u{a0}' || c == '\u{1680}'
        || ('\u{2000}' <= c && c <= '\u{200a}') || c == '\u{2028}' || c == '\u{2029}' || c
        == '\u{202f}' || c == '\u{205f}' || c == '\u{3000}'
}

/// `s` without leading and trailing whitespace.
pub fn trimmed(s: &str) -> (r: &str)
    ensures
        r@ == trim(s@),
{
    let n = s.unicode_len();
    let mut start: usize = 0;
    assert(s@.skip(0) =~= s@);
    while start < n && is_whitespace(s.get_char(start))
        invariant
            n == s@.len(),
            0 <= start <= n,
            trim_start(s@) == trim_start(s@.skip(start as int)),
        decreases n - start,
    {
        assert(s@.skip(start as int).drop_first() =~= s@.skip(start + 1));
        start = start + 1;
    }
    assert(trim_start(s@) == s@.subrange(start as int, n as int));
    let mut end: usize = n;
    while end > start && is_whitespace(s.get_char(end - 1))
        invariant
            n == s@.len(),
            0 <= start <= end <= n,
            trim(s@) == trim_end(s@.subrange(start as int, end as int)),
        decreases end,
    {
        assert(s@.subrange(start as int, end as int).drop_last() =~= s@.subrange(
            start as int,
            end - 1,
        ));
        end = end - 1;
    }
    s.substring_char(start, end)
}

/// The end of the word of `s` that starts at `from`: the position of the
/// next space, or the length of `s`.
fn word_end(s: &str, from: usize) -> (r: usize)
    requires
        from <= s@.len(),
    ensures
        r == from + word_len(s@.skip(from as int)),
        r <= s@.len(),
{
    let n = s.unicode_len();
    let mut i: usize = from;
    while i < n && s.get_char(i) != ' '
        invariant
            n == s@.len(),
            from <= i <= n,
            word_len(s@.skip(from as int)) == (i - from) + word_len(s@.skip(i as int)),
        decreases n - i,
    {
        assert(s@.skip(i as int).drop_first() =~= s@.skip(i + 1));
        i = i + 1;
    }
    i
}

/// The views of a vector of texts.
pub open spec fn texts(v: Seq<&str>) -> Seq<Seq<char>> {
    Seq::new(v.len(), |i: int| v[i]@)
}

/// `s` split at single spaces into at most four fields, the last keeping
/// the rest of `s`.
pub fn split_fields4(s: &str) -> (r: Vec<&str>)
    ensures
        texts(r@) == split_fields(s@, 4),
{
    let n = s.unicode_len();
    let mut parts: Vec<&str> = Vec::new();
    let mut pos: usize = 0;
    assert(s@.skip(0) =~= s@);
    assert(texts(parts@) + split_fields(s@, 4) =~= split_fields(s@, 4));
    loop
        invariant
            n == s@.len(),
            0 <= pos <= n,
            parts@.len() < 4,
            texts(parts@) + split_fields(s@.skip(pos as int), (4 - parts@.len()) as nat)
                == split_fields(s@, 4),
        decreases n - pos,
    {
        let ghost rest = s@.skip(pos as int);
        let ghost before = parts@;
        let w = word_end(s, pos);
        if parts.len() == 3 || w >= n {
            parts.push(s.substring_char(pos, n));
            proof {
                assert(texts(parts@) =~= texts(before).push(rest));
                assert(split_fields(rest, (4 - before.len()) as nat) == seq![rest]);
                assert(texts(parts@) =~= texts(before) + seq![rest]);
                assert(s@.skip(0) =~= s@);
            }
            return parts;
        }
        parts.push(s.substring_char(pos, w));
        proof {
            assert(rest.take(w - pos) =~= s@.subrange(pos as int, w as int));
            assert(rest.skip(w - pos + 1) =~= s@.skip(w + 1));
            assert(texts(parts@) =~= texts(before) + seq![s@.subrange(pos as int, w as int)]);
            assert(split_fields(rest, (4 - before.len()) as nat) == seq![
                s@.subrange(pos as int, w as int),
            ] + split_fields(s@.skip(w + 1), (4 - parts@.len()) as nat));
            assert(texts(parts@) + split_fields(s@.skip(w + 1), (4 - parts@.len()) as nat)
                =~= texts(before) + split_fields(rest, (4 - before.len()) as nat));
        }
        pos = w + 1;
    }
}

/// The value of a prefix of a digit sequence never exceeds that of the whole.
proof fn lemma_prefix_value_le(d: Seq<char>, k: int)
    requires
        0 <= k <= d.len(),
        forall|i: int| 0 <= i < d.len() ==> is_digit(#[trigger] d[i]),
    ensures
        digits_value(d.take(k)) <= digits_value(d),
    decreases d.len(),
{
    if k < d.len() {
        let t = d.drop_last();
        lemma_prefix_value_le(t, k);
        assert(t.take(k) =~= d.take(k));
    } else {
        assert(d.take(k) =~= d);
    }
}

/// Reads an unsigned 64-bit number: an optional `+`, then decimal digits.
pub fn parse_u64(s: &str) -> (r: Option<u64>)
    ensures
        r == u64_of(s@),
{
    let n = s.unicode_len();
    let start: usize = if n > 0 && s.get_char(0) == '+' {
        1
    } else {
        0
    };
    let ghost d = s@.skip(start as int);
    assert(d == (if s@.len() > 0 && s@[0] == '+' {
        s@.drop_first()
    } else {
        s@
    }));
    if start >= n {
        return None;
    }
    let mut acc: u64 = 0;
    let mut i: usize = start;
    assert(s@.subrange(start as int, start as int) =~= Seq::<char>::empty());
    while i < n
        invariant
            n == s@.len(),
            start < n,
            d == s@.skip(start as int),
            d == (if s@.len() > 0 && s@[0] == '+' {
                s@.drop_first()
            } else {
                s@
            }),
            start <= i <= n,
            forall|j: int| start <= j < i ==> is_digit(#[trigger] s@[j]),
            acc == digits_value(s@.subrange(start as int, i as int)),
        decreases n - i,
    {
        let c = s.get_char(i);
        if !('0' <= c && c <= '9') {
            assert(d[i - start] == c);
            assert(!is_digit(d[i - start]));
            assert(!all_digits(d));
            return None;
        }
        let dig: u64 = ((c as u32) - 48) as u64;
        assert(s@.subrange(start as int, i + 1).drop_last() =~= s@.subrange(start as int, i as int));
        assert(digits_value(s@.subrange(start as int, i + 1)) == acc * 10 + dig);
        let next = match acc.checked_mul(10) {
            Some(m) => m.checked_add(dig),
            None => None,
        };
        match next {
            Some(v) => {
                acc = v;
            },
            None => {
                proof {
                    assert(acc * 10 + dig > u64::MAX);
                    if all_digits(d) {
                        assert(d.take(i + 1 - start) =~= s@.subrange(start as int, i + 1));
                        lemma_prefix_value_le(d, i + 1 - start);
                    }
                }
                return None;
            },
        }
        i = i + 1;
    }
    assert(s@.subrange(start as int, n as int) =~= d);
    Some(acc)
}

impl Command {
    /// Parses one request line.
    pub fn parse(input: &str) -> (r: Result<Command, FerrisError>)
        ensures
            parsed_as(input@, r),
    {
        let t = trimmed(input);
        let parts = split_fields4(t);
        let n = parts.len();
        let ghost f = fields(input@);
        assert(f.len() == n);
        assert forall|i: int| 0 <= i < n implies f[i] == (#[trigger] parts@[i])@ by {
            assert(texts(parts@)[i] == parts@[i]@);
        }
        let head = parts[0];
        if n == 1 && same_text(head, "PING") {
            return Ok(Command::Ping);
        }
        if n == 2 && same_text(head, "GET") {
            return Ok(Command::Get { key: parts[1].to_owned() });
        }
        if n == 4 && same_text(head, "SET") {
            return match parse_u64(parts[3]) {
                Some(ttl) => Ok(
                    Command::SetValue {
                        key: parts[1].to_owned(),
                        value: parts[2].to_owned(),
                        ttl: Some(ttl),
                    },
                ),
                None => Err(FerrisError::InvalidTTL(parts[3].to_owned())),
            };
        }
        if n == 3 && same_text(head, "SET") {
            return Ok(
                Command::SetValue { key: parts[1].to_owned(), value: parts[2].to_owned(), ttl: None },
            );
        }
        if n == 2 && same_text(head, "DELETE") {
            return Ok(Command::Delete { key: parts[1].to_owned() });
        }
        if n == 3 && same_text(head, "RENAME") {
            return Ok(
                Command::Rename { old_key: parts[1].to_owned(), new_key: parts[2].to_owned() },
            );
        }
        if n == 3 && same_text(head, "EXPIRE") {
            return match parse_u64(parts[2]) {
                Some(ttl) => Ok(Command::Expire { key: parts[1].to_owned(), ttl }),
                None => Err(FerrisError::InvalidTTL(parts[2].to_owned())),
            };
        }
        if n == 2 && same_text(head, "TTL") {
            return Ok(Command::Ttl { key: parts[1].to_owned() });
        }
        if n == 1 && same_text(head, "KEYS") {
            return Ok(Command::Keys);
        }
        if n == 1 && same_text(head, "COUNT") {
            return Ok(Command::Count);
        }
        if n == 1 && same_text(head, "CLEAR") {
            return Ok(Command::Clear);
        }
        Err(FerrisError::InvalidCommand(t.to_owned()))
    }
}

} // verus!
