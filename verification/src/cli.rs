//! The interactive line tool's pure pieces: parsing one input line into a
//! command, and showing a node identifier as uppercase hexadecimal. The
//! prompt loop, the local mock store and all printing live outside the
//! crate.

use vstd::prelude::*;

verus! {

/// One parsed line of the interactive tool.
pub enum Command {
    Info,
    Stats,
    Put { key: String, value: String },
    Get { key: String },
    Ping,
    Quit,
    Empty,
    Unknown(String),
}

/// The mathematical value of a `Command`.
pub ghost enum CommandV {
    Info,
    Stats,
    Put { key: Seq<char>, value: Seq<char> },
    Get { key: Seq<char> },
    Ping,
    Quit,
    Empty,
    Unknown(Seq<char>),
}

impl View for Command {
    type V = CommandV;

    open spec fn view(&self) -> CommandV {
        match self {
            Command::Info => CommandV::Info,
            Command::Stats => CommandV::Stats,
            Command::Put { key, value } => CommandV::Put { key: key@, value: value@ },
            Command::Get { key } => CommandV::Get { key: key@ },
            Command::Ping => CommandV::Ping,
            Command::Quit => CommandV::Quit,
            Command::Empty => CommandV::Empty,
            Command::Unknown(raw) => CommandV::Unknown(raw@),
        }
    }
}

/// The characters the tokenizer treats as whitespace: the Unicode
/// white-space set.
pub open spec fn is_space(c: char) -> bool {
    let u = c as u32;
    (0x09 <= u && u <= 0x0D) || u == 0x20 || u == 0x85 || u == 0xA0 || u == 0x1680 || (0x2000 <= u
        && u <= 0x200A) || u == 0x2028 || u == 0x2029 || u == 0x202F || u == 0x205F || u == 0x3000
}

/// A character folded to lower case over the ASCII letters, as its code.
pub open spec fn lower_code(c: char) -> u32 {
    if 0x41 <= c as u32 && c as u32 <= 0x5A {
        (c as u32 + 0x20) as u32
    } else {
        c as u32
    }
}

/// Case-insensitive match of a token against a lower-case keyword.
pub open spec fn kw_eq(s: Seq<char>, t: Seq<char>) -> bool {
    s.len() == t.len() && forall|i: int| 0 <= i < s.len() ==> lower_code(s[i]) == t[i] as u32
}

pub open spec fn trim_start(s: Seq<char>) -> Seq<char>
    decreases s.len(),
{
    if s.len() > 0 && is_space(s[0]) {
        trim_start(s.drop_first())
    } else {
        s
    }
}

pub open spec fn trim_end(s: Seq<char>) -> Seq<char>
    decreases s.len(),
{
    if s.len() > 0 && is_space(s.last()) {
        trim_end(s.drop_last())
    } else {
        s
    }
}

pub open spec fn trim(s: Seq<char>) -> Seq<char> {
    trim_end(trim_start(s))
}

/// The leading run of non-space characters.
pub open spec fn take_nonspace(s: Seq<char>) -> Seq<char>
    decreases s.len(),
{
    if s.len() > 0 && !is_space(s[0]) {
        seq![s[0]] + take_nonspace(s.drop_first())
    } else {
        Seq::empty()
    }
}

/// What is left after the leading run of non-space characters.
pub open spec fn drop_nonspace(s: Seq<char>) -> Seq<char>
    decreases s.len(),
{
    if s.len() > 0 && !is_space(s[0]) {
        drop_nonspace(s.drop_first())
    } else {
        s
    }
}

pub proof fn lemma_drop_nonspace_len(s: Seq<char>)
    ensures
        drop_nonspace(s).len() <= s.len(),
    decreases s.len(),
{
    if s.len() > 0 && !is_space(s[0]) {
        lemma_drop_nonspace_len(s.drop_first());
    }
}

/// The line split on runs of whitespace, in order, no token empty.
pub open spec fn tokens(s: Seq<char>) -> Seq<Seq<char>>
    decreases s.len(),
    via tokens_dec
{
    if s.len() == 0 {
        Seq::empty()
    } else if is_space(s[0]) {
        tokens(s.drop_first())
    } else {
        seq![take_nonspace(s)] + tokens(drop_nonspace(s))
    }
}

#[via_fn]
proof fn tokens_dec(s: Seq<char>) {
    if s.len() > 0 && !is_space(s[0]) {
        lemma_drop_nonspace_len(s.drop_first());
    }
}

/// Tokens joined back with a single space between each pair.
pub open spec fn join_spaces(ts: Seq<Seq<char>>) -> Seq<char>
    decreases ts.len(),
{
    if ts.len() == 0 {
        Seq::empty()
    } else if ts.len() == 1 {
        ts[0]
    } else {
        ts[0] + seq![' '] + join_spaces(ts.drop_first())
    }
}

/// The line with surrounding whitespace removed, then an optional leading
/// `>` and an optional leading `/` each stripped together with the
/// whitespace that follows it.
pub open spec fn strip_marks(s: Seq<char>) -> Seq<char> {
    let t0 = trim(s);
    let t1 = if t0.len() > 0 && t0[0] == '>' {
        trim_start(t0.drop_first())
    } else {
        t0
    };
    if t1.len() > 0 && t1[0] == '/' {
        trim_start(t1.drop_first())
    } else {
        t1
    }
}

/// What one raw input line means. The line is stripped of decoration; an
/// empty line is no command; otherwise the first token, matched without
/// regard to ASCII case, picks the command, `put` taking a key and the
/// remaining tokens single-space-joined as value, `get` taking a key, and
/// anything else left unrecognized with the stripped line kept for the
/// report.
pub open spec fn spec_parse_command(input: Seq<char>) -> CommandV {
    let line = strip_marks(input);
    if line.len() == 0 {
        CommandV::Empty
    } else {
        let ts = tokens(line);
        if ts.len() == 0 {
            CommandV::Empty
        } else {
            let c = ts[0];
            if kw_eq(c, "help"@) {
                CommandV::Info
            } else if kw_eq(c, "stats"@) {
                CommandV::Stats
            } else if kw_eq(c, "ping"@) {
                CommandV::Ping
            } else if kw_eq(c, "quit"@) || kw_eq(c, "bye"@) || kw_eq(c, "exit"@) {
                CommandV::Quit
            } else if kw_eq(c, "put"@) {
                if ts.len() < 2 {
                    CommandV::Unknown("missing key for put"@)
                } else {
                    let value = join_spaces(ts.subrange(2, ts.len() as int));
                    if value.len() == 0 {
                        CommandV::Unknown("missing value for put"@)
                    } else {
                        CommandV::Put { key: ts[1], value }
                    }
                }
            } else if kw_eq(c, "get"@) {
                if ts.len() < 2 {
                    CommandV::Unknown("missing key for get"@)
                } else {
                    CommandV::Get { key: ts[1] }
                }
            } else {
                CommandV::Unknown(line)
            }
        }
    }
}

// ---------------------------------------------------------------------------
// Hexadecimal display of a node identifier.
// ---------------------------------------------------------------------------

/// The uppercase hexadecimal digit for a value below sixteen.
pub open spec fn hex_digit(n: u8) -> char {
    if n == 0 {
        '0'
    } else if n == 1 {
        '1'
    } else if n == 2 {
        '2'
    } else if n == 3 {
        '3'
    } else if n == 4 {
        '4'
    } else if n == 5 {
        '5'
    } else if n == 6 {
        '6'
    } else if n == 7 {
        '7'
    } else if n == 8 {
        '8'
    } else if n == 9 {
        '9'
    } else if n == 10 {
        'A'
    } else if n == 11 {
        'B'
    } else if n == 12 {
        'C'
    } else if n == 13 {
        'D'
    } else if n == 14 {
        'E'
    } else {
        'F'
    }
}

/// Each byte as two uppercase hexadecimal digits, high digit first.
pub open spec fn hex_chars(s: Seq<u8>) -> Seq<char>
    decreases s.len(),
{
    if s.len() == 0 {
        Seq::empty()
    } else {
        hex_chars(s.drop_last()) + seq![hex_digit(s.last() / 16), hex_digit(s.last() % 16)]
    }
}

/// Relies on `String::push`: it appends the one character to the end of
/// the string.
#[verifier::external_body]
fn push_char(s: &mut String, c: char)
    ensures
        final(s)@ == old(s)@.push(c),
{
    s.push(c);
}

fn hex_digit_char(n: u8) -> (c: char)
    requires
        n < 16,
    ensures
        c == hex_digit(n),
{
    if n == 0 {
        '0'
    } else if n == 1 {
        '1'
    } else if n == 2 {
        '2'
    } else if n == 3 {
        '3'
    } else if n == 4 {
        '4'
    } else if n == 5 {
        '5'
    } else if n == 6 {
        '6'
    } else if n == 7 {
        '7'
    } else if n == 8 {
        '8'
    } else if n == 9 {
        '9'
    } else if n == 10 {
        'A'
    } else if n == 11 {
        'B'
    } else if n == 12 {
        'C'
    } else if n == 13 {
        'D'
    } else if n == 14 {
        'E'
    } else {
        'F'
    }
}

/// The twenty-byte node identifier as forty uppercase hexadecimal digits.
pub fn node_id_to_hex(id: &[u8; 20]) -> (r: String)
    ensures
        r@ == hex_chars(id@),
{
    let mut out = String::new();
    let mut i: usize = 0;
    proof {
        assert(id@.take(0) =~= Seq::<u8>::empty());
    }
    while i < 20
        invariant
            i <= 20,
            id@.len() == 20,
            out@ == hex_chars(id@.take(i as int)),
        decreases 20 - i,
    {
        let b = id[i];
        push_char(&mut out, hex_digit_char(b / 16));
        push_char(&mut out, hex_digit_char(b % 16));
        i = i + 1;
        proof {
            assert(id@.take(i as int).drop_last() =~= id@.take(i - 1));
            assert(id@.take(i as int).last() == id@[i - 1]);
            assert(out@ =~= hex_chars(id@.take(i as int)));
        }
    }
    proof {
        assert(id@.take(20) =~= id@);
    }
    out
}

// ---------------------------------------------------------------------------
// Executable command parsing.
// ---------------------------------------------------------------------------

proof fn lemma_trim_start_at(s: Seq<char>, j: int)
    requires
        0 <= j <= s.len(),
        forall|k: int| 0 <= k < j ==> is_space(s[k]),
        j == s.len() || !is_space(s[j]),
    ensures
        trim_start(s) == s.subrange(j, s.len() as int),
    decreases j,
{
    if j == 0 {
        assert(trim_start(s) =~= s.subrange(0, s.len() as int));
    } else {
        lemma_trim_start_at(s.drop_first(), j - 1);
        assert(s.drop_first().subrange(j - 1, s.drop_first().len() as int) =~= s.subrange(
            j,
            s.len() as int,
        ));
    }
}

proof fn lemma_trim_end_at(s: Seq<char>, j: int)
    requires
        0 <= j <= s.len(),
        forall|k: int| j <= k < s.len() ==> is_space(s[k]),
        j == 0 || !is_space(s[j - 1]),
    ensures
        trim_end(s) == s.subrange(0, j),
    decreases s.len(),
{
    if j == s.len() {
        assert(trim_end(s) =~= s.subrange(0, j));
    } else {
        assert(is_space(s.last()));
        lemma_trim_end_at(s.drop_last(), j);
        assert(s.drop_last().subrange(0, j) =~= s.subrange(0, j));
    }
}

proof fn lemma_nonspace_at(s: Seq<char>, j: int)
    requires
        0 <= j <= s.len(),
        forall|k: int| 0 <= k < j ==> !is_space(s[k]),
        j == s.len() || is_space(s[j]),
    ensures
        take_nonspace(s) == s.subrange(0, j),
        drop_nonspace(s) == s.subrange(j, s.len() as int),
    decreases j,
{
    if j == 0 {
        assert(take_nonspace(s) =~= s.subrange(0, 0));
        assert(drop_nonspace(s) =~= s.subrange(0, s.len() as int));
    } else {
        lemma_nonspace_at(s.drop_first(), j - 1);
        assert(seq![s[0]] + s.drop_first().subrange(0, j - 1) =~= s.subrange(0, j));
        assert(s.drop_first().subrange(j - 1, s.drop_first().len() as int) =~= s.subrange(
            j,
            s.len() as int,
        ));
    }
}

proof fn lemma_join_push(ts: Seq<Seq<char>>, t: Seq<char>)
    ensures
        ts.len() == 0 ==> join_spaces(ts.push(t)) == t,
        ts.len() > 0 ==> join_spaces(ts.push(t)) == join_spaces(ts) + seq![' '] + t,
    decreases ts.len(),
{
    let p = ts.push(t);
    if ts.len() == 0 {
        assert(p.len() == 1);
        assert(p[0] == t);
    } else if ts.len() == 1 {
        assert(p.len() == 2);
        assert(p[0] == ts[0]);
        assert(p.drop_first() =~= seq![t]);
        assert(join_spaces(seq![t]) == t);
    } else {
        lemma_join_push(ts.drop_first(), t);
        assert(p.drop_first() =~= ts.drop_first().push(t));
        assert(p[0] == ts[0]);
        assert(ts[0] + seq![' '] + (join_spaces(ts.drop_first()) + seq![' '] + t) =~= (ts[0]
            + seq![' '] + join_spaces(ts.drop_first())) + seq![' '] + t);
    }
}

/// The token sequence a list of boundary pairs cuts out of the line.
pub open spec fn bounds_views(cs: Seq<char>, bs: Seq<(usize, usize)>) -> Seq<Seq<char>> {
    Seq::new(bs.len(), |i: int| cs.subrange(bs[i].0 as int, bs[i].1 as int))
}

fn is_space_char(c: char) -> (r: bool)
    ensures
        r == is_space(c),
{
    let u = c as u32;
    (0x09 <= u && u <= 0x0D) || u == 0x20 || u == 0x85 || u == 0xA0 || u == 0x1680 || (0x2000 <= u
        && u <= 0x200A) || u == 0x2028 || u == 0x2029 || u == 0x202F || u == 0x205F || u == 0x3000
}

fn lower_char_code(c: char) -> (r: u32)
    ensures
        r == lower_code(c),
{
    let u = c as u32;
    if 0x41 <= u && u <= 0x5A {
        u + 0x20
    } else {
        u
    }
}

fn chars_of(s: &str) -> (r: Vec<char>)
    ensures
        r@ == s@,
{
    let n: usize = s.unicode_len();
    let mut r: Vec<char> = Vec::new();
    let mut i: usize = 0;
    while i < n
        invariant
            i <= n == s@.len(),
            r@ == s@.take(i as int),
        decreases n - i,
    {
        r.push(s.get_char(i));
        i = i + 1;
        proof {
            assert(r@ =~= s@.take(i as int));
        }
    }
    proof {
        assert(s@.take(n as int) =~= s@);
    }
    r
}

fn string_of(cs: &Vec<char>, lo: usize, hi: usize) -> (r: String)
    requires
        lo <= hi <= cs@.len(),
    ensures
        r@ == cs@.subrange(lo as int, hi as int),
{
    let mut r = String::new();
    let mut i: usize = lo;
    proof {
        assert(r@ =~= cs@.subrange(lo as int, lo as int));
    }
    while i < hi
        invariant
            lo <= i <= hi <= cs@.len(),
            r@ == cs@.subrange(lo as int, i as int),
        decreases hi - i,
    {
        push_char(&mut r, cs[i]);
        i = i + 1;
        proof {
            assert(r@ =~= cs@.subrange(lo as int, i as int));
        }
    }
    r
}

fn skip_spaces(cs: &Vec<char>, from: usize, hi: usize) -> (e: usize)
    requires
        from <= hi <= cs@.len(),
    ensures
        from <= e <= hi,
        forall|k: int| from <= k < e ==> is_space(cs@[k]),
        e == hi || !is_space(cs@[e as int]),
{
    let mut i: usize = from;
    while i < hi
        invariant
            from <= i <= hi <= cs@.len(),
            forall|k: int| from <= k < i ==> is_space(cs@[k]),
        decreases hi - i,
    {
        if !is_space_char(cs[i]) {
            return i;
        }
        i = i + 1;
    }
    i
}

fn rtrim_index(cs: &Vec<char>, lo: usize, hi: usize) -> (e: usize)
    requires
        lo <= hi <= cs@.len(),
    ensures
        lo <= e <= hi,
        forall|k: int| e <= k < hi ==> is_space(cs@[k]),
        e == lo || !is_space(cs@[e - 1]),
{
    let mut i: usize = hi;
    while i > lo
        invariant
            lo <= i <= hi <= cs@.len(),
            forall|k: int| i <= k < hi ==> is_space(cs@[k]),
        decreases i,
    {
        if !is_space_char(cs[i - 1]) {
            return i;
        }
        i = i - 1;
    }
    i
}

fn token_end(cs: &Vec<char>, start: usize, hi: usize) -> (e: usize)
    requires
        start <= hi <= cs@.len(),
    ensures
        start <= e <= hi,
        forall|k: int| start <= k < e ==> !is_space(cs@[k]),
        e == hi || is_space(cs@[e as int]),
{
    let mut i: usize = start;
    while i < hi
        invariant
            start <= i <= hi <= cs@.len(),
            forall|k: int| start <= k < i ==> !is_space(cs@[k]),
        decreases hi - i,
    {
        if is_space_char(cs[i]) {
            return i;
        }
        i = i + 1;
    }
    i
}

fn tokenize(cs: &Vec<char>, lo: usize, hi: usize) -> (bs: Vec<(usize, usize)>)
    requires
        lo <= hi <= cs@.len(),
    ensures
        bounds_views(cs@, bs@) == tokens(cs@.subrange(lo as int, hi as int)),
        forall|k: int|
            0 <= k < bs@.len() ==> lo <= (#[trigger] bs@[k]).0 && bs@[k].0 < bs@[k].1 <= hi,
{
    let ghost line = cs@.subrange(lo as int, hi as int);
    let mut bs: Vec<(usize, usize)> = Vec::new();
    let mut i: usize = lo;
    proof {
        assert(bounds_views(cs@, bs@) =~= Seq::<Seq<char>>::empty());
        assert(bounds_views(cs@, bs@) + tokens(cs@.subrange(i as int, hi as int)) =~= tokens(
            line,
        ));
    }
    while i < hi
        invariant
            lo <= i <= hi <= cs@.len(),
            line == cs@.subrange(lo as int, hi as int),
            tokens(line) == bounds_views(cs@, bs@) + tokens(cs@.subrange(i as int, hi as int)),
            forall|k: int|
                0 <= k < bs@.len() ==> lo <= (#[trigger] bs@[k]).0 && bs@[k].0 < bs@[k].1 <= hi,
        decreases hi - i,
    {
        let ghost rem = cs@.subrange(i as int, hi as int);
        if is_space_char(cs[i]) {
            proof {
                assert(rem[0] == cs@[i as int]);
                assert(rem.drop_first() =~= cs@.subrange(i + 1, hi as int));
                assert(tokens(rem) == tokens(cs@.subrange(i + 1, hi as int)));
            }
            i = i + 1;
        } else {
            let e = token_end(cs, i, hi);
            proof {
                assert(rem[0] == cs@[i as int]);
                assert(forall|k: int| 0 <= k < e - i ==> rem[k] == cs@[i + k]);
                assert(e - i == rem.len() || is_space(rem[e - i]));
                lemma_nonspace_at(rem, e - i);
                assert(rem.subrange(0, e - i) =~= cs@.subrange(i as int, e as int));
                assert(rem.subrange(e - i, rem.len() as int) =~= cs@.subrange(
                    e as int,
                    hi as int,
                ));
                assert(tokens(rem) == seq![cs@.subrange(i as int, e as int)] + tokens(
                    cs@.subrange(e as int, hi as int),
                ));
                if e == i {
                    assert(is_space(cs@[i as int]));
                    assert(false);
                }
            }
            let ghost bs0 = bs@;
            bs.push((i, e));
            proof {
                assert(bounds_views(cs@, bs@) =~= bounds_views(cs@, bs0).push(
                    cs@.subrange(i as int, e as int),
                ));
                assert(bounds_views(cs@, bs@) + tokens(cs@.subrange(e as int, hi as int)) =~= (
                bounds_views(cs@, bs0) + (seq![cs@.subrange(i as int, e as int)] + tokens(
                    cs@.subrange(e as int, hi as int),
                ))));
            }
            i = e;
        }
    }
    proof {
        assert(cs@.subrange(i as int, hi as int).len() == 0);
        assert(tokens(cs@.subrange(i as int, hi as int)) =~= Seq::<Seq<char>>::empty());
        assert(bounds_views(cs@, bs@) =~= tokens(line));
    }
    bs
}

fn kw_matches(cs: &Vec<char>, lo: usize, hi: usize, pat: &str) -> (r: bool)
    requires
        lo <= hi <= cs@.len(),
    ensures
        r == kw_eq(cs@.subrange(lo as int, hi as int), pat@),
{
    let ghost tok = cs@.subrange(lo as int, hi as int);
    let m: usize = pat.unicode_len();
    if hi - lo != m {
        return false;
    }
    let mut i: usize = 0;
    while i < m
        invariant
            i <= m == pat@.len(),
            lo <= hi <= cs@.len(),
            hi - lo == m,
            tok == cs@.subrange(lo as int, hi as int),
            forall|k: int| 0 <= k < i ==> lower_code(tok[k]) == pat@[k] as u32,
        decreases m - i,
    {
        let c = cs[lo + i];
        let p = pat.get_char(i);
        if lower_char_code(c) != p as u32 {
            proof {
                assert(tok[i as int] == cs@[lo + i]);
                assert(!(lower_code(tok[i as int]) == pat@[i as int] as u32));
            }
            return false;
        }
        i = i + 1;
    }
    true
}

/// Parses one raw input line of the interactive tool, as
/// `spec_parse_command` says.
#[verifier::rlimit(80)]
pub fn parse_command(input: &str) -> (r: Command)
    ensures
        r@ == spec_parse_command(input@),
{
    let cs = chars_of(input);
    let n: usize = cs.len();
    let lo0 = skip_spaces(&cs, 0, n);
    let hi0 = rtrim_index(&cs, lo0, n);
    proof {
        lemma_trim_start_at(cs@, lo0 as int);
        let t = cs@.subrange(lo0 as int, n as int);
        assert(forall|k: int| hi0 - lo0 <= k < t.len() ==> t[k] == cs@[lo0 + k]);
        lemma_trim_end_at(t, hi0 - lo0);
        assert(t.subrange(0, hi0 - lo0) =~= cs@.subrange(lo0 as int, hi0 as int));
        assert(trim(input@) == cs@.subrange(lo0 as int, hi0 as int));
    }
    let mut lo: usize = lo0;
    let hi: usize = hi0;
    let ghost t0 = cs@.subrange(lo0 as int, hi0 as int);
    if lo < hi && cs[lo] == '>' {
        proof {
            assert(t0[0] == cs@[lo as int]);
        }
        lo = skip_spaces(&cs, lo + 1, hi);
        proof {
            let u = cs@.subrange(lo0 + 1, hi as int);
            assert(t0.drop_first() =~= u);
            assert(forall|k: int| 0 <= k < lo - (lo0 + 1) ==> u[k] == cs@[lo0 + 1 + k]);
            lemma_trim_start_at(u, lo - (lo0 + 1));
            assert(u.subrange(lo - (lo0 + 1), u.len() as int) =~= cs@.subrange(
                lo as int,
                hi as int,
            ));
        }
    }
    let ghost t1 = cs@.subrange(lo as int, hi as int);
    let ghost mark = lo;
    if lo < hi && cs[lo] == '/' {
        proof {
            assert(t1[0] == cs@[lo as int]);
        }
        lo = skip_spaces(&cs, lo + 1, hi);
        proof {
            let u = cs@.subrange(mark + 1, hi as int);
            assert(t1.drop_first() =~= u);
            assert(forall|k: int| 0 <= k < lo - (mark + 1) ==> u[k] == cs@[mark + 1 + k]);
            lemma_trim_start_at(u, lo - (mark + 1));
            assert(u.subrange(lo - (mark + 1), u.len() as int) =~= cs@.subrange(
                lo as int,
                hi as int,
            ));
        }
    }
    let ghost line = cs@.subrange(lo as int, hi as int);
    proof {
        assert(line == strip_marks(input@));
    }
    if lo == hi {
        return Command::Empty;
    }
    let bs = tokenize(&cs, lo, hi);
    let ghost ts = tokens(line);
    if bs.len() == 0 {
        return Command::Empty;
    }
    let first = bs[0];
    proof {
        assert(ts[0] == cs@.subrange(first.0 as int, first.1 as int));
    }
    if kw_matches(&cs, first.0, first.1, "help") {
        return Command::Info;
    }
    if kw_matches(&cs, first.0, first.1, "stats") {
        return Command::Stats;
    }
    if kw_matches(&cs, first.0, first.1, "ping") {
        return Command::Ping;
    }
    if kw_matches(&cs, first.0, first.1, "quit") || kw_matches(&cs, first.0, first.1, "bye")
        || kw_matches(&cs, first.0, first.1, "exit") {
        return Command::Quit;
    }
    if kw_matches(&cs, first.0, first.1, "put") {
        if bs.len() < 2 {
            return Command::Unknown(String::from_str("missing key for put"));
        }
        let second = bs[1];
        proof {
            assert(ts[1] == cs@.subrange(second.0 as int, second.1 as int));
        }
        let key = string_of(&cs, second.0, second.1);
        let m: usize = bs.len();
        let mut value = String::new();
        let mut idx: usize = 2;
        proof {
            assert(ts.subrange(2, 2) =~= Seq::<Seq<char>>::empty());
        }
        while idx < m
            invariant
                2 <= idx <= m == bs@.len(),
                lo <= hi <= cs@.len(),
                ts == bounds_views(cs@, bs@),
                forall|k: int|
                    0 <= k < bs@.len() ==> lo <= (#[trigger] bs@[k]).0 && bs@[k].0 < bs@[k].1
                        <= hi,
                value@ == join_spaces(ts.subrange(2, idx as int)),
            decreases m - idx,
        {
            if idx > 2 {
                push_char(&mut value, ' ');
            }
            let b = bs[idx];
            let t = string_of(&cs, b.0, b.1);
            value.append(t.as_str());
            proof {
                let prefix = ts.subrange(2, idx as int);
                lemma_join_push(prefix, ts[idx as int]);
                assert(prefix.push(ts[idx as int]) =~= ts.subrange(2, idx + 1));
                if idx > 2 {
                    assert(value@ =~= join_spaces(prefix) + seq![' '] + ts[idx as int]);
                } else {
                    assert(value@ =~= ts[idx as int]);
                }
            }
            idx = idx + 1;
        }
        proof {
            assert(ts.subrange(2, ts.len() as int) == ts.subrange(2, m as int));
        }
        if value.as_str().is_empty() {
            return Command::Unknown(String::from_str("missing value for put"));
        }
        return Command::Put { key, value };
    }
    if kw_matches(&cs, first.0, first.1, "get") {
        if bs.len() < 2 {
            return Command::Unknown(String::from_str("missing key for get"));
        }
        let second = bs[1];
        proof {
            assert(ts[1] == cs@.subrange(second.0 as int, second.1 as int));
        }
        let key = string_of(&cs, second.0, second.1);
        return Command::Get { key };
    }
    Command::Unknown(string_of(&cs, lo, hi))
}

} // verus!
