//! Target list: one record per line, `#` lines skipped, the port as the
//! third whitespace-separated token and the host as the fourth.
use vstd::prelude::*;

verus! {

/// The characters that `char::is_whitespace` accepts: Unicode White_Space.
pub open spec fn is_space(c: char) -> bool {
    ||| ('\u{9}' <= c && c <= '\u{d}')
    ||| c == ' '
    ||| c == '\u{85}'
    ||| c == '\u{a0}'
    ||| c == '\u{1680}'
    ||| ('\u{2000}' <= c && c <= '\u{200a}')
    ||| c == '\u{2028}'
    ||| c == '\u{2029}'
    ||| c == '\u{202f}'
    ||| c == '\u{205f}'
    ||| c == '\u{3000}'
}

/// Whether `c` separates tokens of a record.
pub fn is_space_char(c: char) -> (r: bool)
    ensures
        r == is_space(c),
{
    ('\u{9}' <= c && c <= '\u{d}') || c == ' ' || c == '\u{85}' || c == '\u{a0}'
        || c == '\u{1680}' || ('\u{2000}' <= c && c <= '\u{200a}') || c == '\u{2028}'
        || c == '\u{2029}' || c == '\u{202f}' || c == '\u{205f}' || c == '\u{3000}'
}

pub open spec fn is_digit(c: char) -> bool {
    '0' <= c && c <= '9'
}

pub open spec fn digit_value(c: char) -> int {
    (c as u32) as int - ('0' as u32) as int
}

/// The number that a sequence of decimal digits denotes.
pub open spec fn decimal_value(s: Seq<char>) -> int
    decreases s.len(),
{
    if s.len() == 0 {
        0
    } else {
        decimal_value(s.drop_last()) * 10 + digit_value(s.last())
    }
}

/// The digits of a port token: an optional leading `+` is dropped.
pub open spec fn port_digits(s: Seq<char>) -> Seq<char> {
    if s.len() > 0 && s[0] == '+' {
        s.drop_first()
    } else {
        s
    }
}

/// A port token in the form `u16::from_str` accepts: an optional `+`, then
/// one or more decimal digits whose value is at most 65535.
pub open spec fn port_of(s: Seq<char>) -> Option<u16> {
    let d = port_digits(s);
    if d.len() > 0 && (forall|i: int| 0 <= i < d.len() ==> is_digit(#[trigger] d[i]))
        && decimal_value(d) <= 65535 {
        Some(decimal_value(d) as u16)
    } else {
        None
    }
}

/// Reads a port token; `None` where it is not an unsigned 16-bit number.
pub fn parse_port(s: &str) -> (r: Option<u16>)
    ensures
        r == port_of(s@),
{
    let n = s.unicode_len();
    let start: usize = if n > 0 && s.get_char(0) == '+' { 1 } else { 0 };
    let ghost d = port_digits(s@);
    assert(d =~= s@.subrange(start as int, n as int));
    if start == n {
        return None;
    }
    // `value` is the value of the digits read so far, or 65536 once that
    // value has passed 65535.
    let mut value: u32 = 0;
    let mut i: usize = start;
    while i < n
        invariant
            start <= i <= n,
            n == s@.len(),
            d == port_digits(s@),
            d =~= s@.subrange(start as int, n as int),
            forall|j: int| 0 <= j < i - start ==> is_digit(#[trigger] d[j]),
            decimal_value(d.take(i - start)) <= 65535 ==> value == decimal_value(
                d.take(i - start),
            ),
            decimal_value(d.take(i - start)) > 65535 ==> value == 65536,
            decimal_value(d.take(i - start)) >= 0,
        decreases n - i,
    {
        let c = s.get_char(i);
        if c < '0' || c > '9' {
            assert(d[i - start] == c && !is_digit(d[i - start]));
            assert(!(forall|j: int| 0 <= j < d.len() ==> is_digit(#[trigger] d[j])));
            assert(port_digits(s@) == d);
            assert(port_of(s@) is None);
            return None;
        }
        let k = (c as u32) - ('0' as u32);
        proof {
            let p = d.take(i - start + 1);
            assert(p.drop_last() =~= d.take(i - start));
            assert(p.last() == c);
        }
        if value <= 65535 {
            value = value * 10 + k;
            if value > 65535 {
                value = 65536;
            }
        }
        i = i + 1;
    }
    assert(d.take(n - start) =~= d);
    if value > 65535 {
        None
    } else {
        Some(value as u16)
    }
}

/// Tokens of `s` read left to right: the tokens already closed, and the
/// token still open at the end of `s` (empty where none is open).
pub open spec fn scan(s: Seq<char>) -> (Seq<Seq<char>>, Seq<char>)
    decreases s.len(),
{
    if s.len() == 0 {
        (Seq::empty(), Seq::empty())
    } else {
        let (closed, open) = scan(s.drop_last());
        if is_space(s.last()) {
            if open.len() > 0 {
                (closed.push(open), Seq::empty())
            } else {
                (closed, Seq::empty())
            }
        } else {
            (closed, open.push(s.last()))
        }
    }
}

/// The maximal runs of non-whitespace characters of `s`, in order.
pub open spec fn tokens(s: Seq<char>) -> Seq<Seq<char>> {
    let (closed, open) = scan(s);
    if open.len() > 0 {
        closed.push(open)
    } else {
        closed
    }
}

pub open spec fn string_views(v: Seq<String>) -> Seq<Seq<char>> {
    v.map_values(|t: String| t@)
}

/// Splits `s` at whitespace, as `str::split_whitespace` does.
pub fn split_tokens(s: &str) -> (r: Vec<String>)
    ensures
        string_views(r@) == tokens(s@),
{
    let n = s.unicode_len();
    let mut closed: Vec<String> = Vec::new();
    let mut start: usize = 0;
    let mut i: usize = 0;
    while i < n
        invariant
            n == s@.len(),
            start <= i <= n,
            scan(s@.take(i as int)) == (string_views(closed@), s@.subrange(start as int, i as int)),
        decreases n - i,
    {
        let c = s.get_char(i);
        proof {
            assert(s@.take(i + 1).drop_last() =~= s@.take(i as int));
            assert(s@.take(i + 1).last() == c);
        }
        if is_space_char(c) {
            if start < i {
                let t = s.substring_char(start, i).to_string();
                proof {
                    broadcast use vstd::string::group_string_axioms;
                }
                let ghost before = closed@;
                closed.push(t);
                assert(string_views(closed@) =~= string_views(before).push(t@));
            } else {
                assert(s@.subrange(start as int, i as int).len() == 0);
            }
            start = i + 1;
            assert(s@.subrange(start as int, i + 1) =~= Seq::<char>::empty());
        } else {
            assert(s@.subrange(start as int, i + 1) =~= s@.subrange(start as int, i as int).push(c));
        }
        i = i + 1;
    }
    assert(s@.take(n as int) =~= s@);
    if start < n {
        let t = s.substring_char(start, n).to_string();
        proof {
            broadcast use vstd::string::group_string_axioms;
        }
        let ghost before = closed@;
        closed.push(t);
        assert(string_views(closed@) =~= string_views(before).push(t@));
    }
    closed
}

/// One host/port pair to probe.
#[derive(Clone, Debug, PartialEq, Eq)]
pub struct Target {
    pub host: String,
    pub port: u16,
}

/// The plain value of a [`Target`].
pub struct TargetView {
    pub host: Seq<char>,
    pub port: u16,
}

impl View for Target {
    type V = TargetView;

    open spec fn view(&self) -> TargetView {
        TargetView { host: self.host@, port: self.port }
    }
}

pub open spec fn target_views(v: Seq<Target>) -> Seq<TargetView> {
    v.map_values(|t: Target| t@)
}

/// Why a target list was refused; `line` is the 0-based line number.
#[derive(Clone, Copy, Debug, PartialEq, Eq, Structural)]
pub enum LoadError {
    /// The line has fewer than three tokens.
    MissingPort { line: usize },
    /// The third token is not an unsigned 16-bit number.
    InvalidPort { line: usize },
    /// The line has a valid port but no fourth token.
    MissingHost { line: usize },
}

impl LoadError {
    pub open spec fn line_spec(&self) -> usize {
        match *self {
            LoadError::MissingPort { line } => line,
            LoadError::InvalidPort { line } => line,
            LoadError::MissingHost { line } => line,
        }
    }

    /// The line the error was found on.
    pub fn line(&self) -> (r: usize)
        ensures
            r == self.line_spec(),
    {
        match *self {
            LoadError::MissingPort { line } => line,
            LoadError::InvalidPort { line } => line,
            LoadError::MissingHost { line } => line,
        }
    }
}

pub open spec fn is_comment(line: Seq<char>) -> bool {
    line.len() > 0 && line[0] == '#'
}

/// What line number `index` holding `line` contributes to the target list:
/// nothing for a comment, a target for a well-formed record, else an error.
pub open spec fn record_of(line: Seq<char>, index: usize) -> Result<Option<TargetView>, LoadError> {
    let t = tokens(line);
    if is_comment(line) {
        Ok(None)
    } else if t.len() < 3 {
        Err(LoadError::MissingPort { line: index })
    } else if port_of(t[2]) is None {
        Err(LoadError::InvalidPort { line: index })
    } else if t.len() < 4 {
        Err(LoadError::MissingHost { line: index })
    } else {
        Ok(Some(TargetView { host: t[3], port: port_of(t[2])->0 }))
    }
}

/// The targets of a whole list, in line order, or the error of its first
/// malformed line.
pub open spec fn targets_of(lines: Seq<Seq<char>>) -> Result<Seq<TargetView>, LoadError>
    decreases lines.len(),
{
    if lines.len() == 0 {
        Ok(Seq::empty())
    } else {
        match targets_of(lines.drop_last()) {
            Err(e) => Err(e),
            Ok(found) => match record_of(lines.last(), (lines.len() - 1) as usize) {
                Err(e) => Err(e),
                Ok(None) => Ok(found),
                Ok(Some(t)) => Ok(found.push(t)),
            },
        }
    }
}

/// Reads line number `index` of a target list.
pub fn parse_line(line: &str, index: usize) -> (r: Result<Option<Target>, LoadError>)
    ensures
        match r {
            Ok(Some(t)) => record_of(line@, index) == Ok::<_, LoadError>(Some(t@)),
            Ok(None) => record_of(line@, index) == Ok::<Option<TargetView>, LoadError>(None),
            Err(e) => record_of(line@, index) == Err::<Option<TargetView>, _>(e),
        },
{
    if line.unicode_len() > 0 && line.get_char(0) == '#' {
        return Ok(None);
    }
    let toks = split_tokens(line);
    assert(toks@.len() == tokens(line@).len());
    if toks.len() < 3 {
        return Err(LoadError::MissingPort { line: index });
    }
    assert(toks@[2]@ == tokens(line@)[2]);
    let port = match parse_port(toks[2].as_str()) {
        Some(p) => p,
        None => {
            return Err(LoadError::InvalidPort { line: index });
        },
    };
    if toks.len() < 4 {
        return Err(LoadError::MissingHost { line: index });
    }
    assert(toks@[3]@ == tokens(line@)[3]);
    Ok(Some(Target { host: toks[3].clone(), port }))
}

/// Reads a whole target list; the first malformed line fails the load.
pub fn load_targets(lines: &Vec<String>) -> (r: Result<Vec<Target>, LoadError>)
    ensures
        match r {
            Ok(v) => targets_of(string_views(lines@)) == Ok::<_, LoadError>(target_views(v@)),
            Err(e) => targets_of(string_views(lines@)) == Err::<Seq<TargetView>, _>(e),
        },
{
    let mut found: Vec<Target> = Vec::new();
    let mut i: usize = 0;
    assert(string_views(lines@).take(0) =~= Seq::<Seq<char>>::empty());
    assert(target_views(found@) =~= Seq::<TargetView>::empty());
    while i < lines.len()
        invariant
            i <= lines@.len(),
            targets_of(string_views(lines@).take(i as int)) == Ok::<_, LoadError>(
                target_views(found@),
            ),
        decreases lines@.len() - i,
    {
        let ghost prefix = string_views(lines@).take(i + 1);
        assert(prefix.drop_last() =~= string_views(lines@).take(i as int));
        assert(prefix.last() == lines@[i as int]@);
        match parse_line(lines[i].as_str(), i) {
            Err(e) => {
                proof {
                    lemma_error_stays(string_views(lines@), i + 1);
                }
                return Err(e);
            },
            Ok(None) => {},
            Ok(Some(t)) => {
                let ghost before = found@;
                found.push(t);
                assert(target_views(found@) =~= target_views(before).push(t@));
            },
        }
        i = i + 1;
    }
    assert(string_views(lines@).take(lines@.len() as int) =~= string_views(lines@));
    Ok(found)
}

/// A list whose first `k` lines fail to load fails with the same error.
pub proof fn lemma_error_stays(lines: Seq<Seq<char>>, k: int)
    requires
        0 <= k <= lines.len(),
        targets_of(lines.take(k)) is Err,
    ensures
        targets_of(lines) == targets_of(lines.take(k)),
    decreases lines.len() - k,
{
    if k < lines.len() {
        assert(lines.take(k + 1).drop_last() =~= lines.take(k));
        lemma_error_stays(lines, k + 1);
    } else {
        assert(lines.take(k) =~= lines);
    }
}

/// A list with no record lines, comments only, loads as no targets.
pub proof fn lemma_comments_only_load_nothing(lines: Seq<Seq<char>>)
    requires
        forall|i: int| 0 <= i < lines.len() ==> is_comment(#[trigger] lines[i]),
    ensures
        targets_of(lines) == Ok::<_, LoadError>(Seq::<TargetView>::empty()),
    decreases lines.len(),
{
    if lines.len() > 0 {
        let rest = lines.drop_last();
        assert forall|i: int| 0 <= i < rest.len() implies is_comment(#[trigger] rest[i]) by {
            assert(rest[i] == lines[i]);
        }
        lemma_comments_only_load_nothing(rest);
        assert(is_comment(lines[lines.len() - 1]));
    }
}

/// One record line whose port token is missing or not a number, or whose
/// host token is missing, fails the whole load: no target comes back.
pub proof fn lemma_malformed_line_fails_load(lines: Seq<Seq<char>>, k: int)
    requires
        0 <= k < lines.len(),
        !is_comment(lines[k]),
        tokens(lines[k]).len() < 4 || port_of(tokens(lines[k])[2]) is None,
    ensures
        targets_of(lines) is Err,
{
    let p = lines.take(k + 1);
    assert(p.drop_last() =~= lines.take(k));
    assert(p.last() == lines[k]);
    assert(record_of(lines[k], k as usize) is Err);
    lemma_error_stays(lines, k + 1);
}

} // verus!
