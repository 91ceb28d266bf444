//! The EU4 binary token format.
//!
//! A binary save is a stream of tokens. Every token starts with a two byte
//! little endian identifier. Structural tokens and field identifiers are
//! only those two bytes, while scalar tokens carry a fixed size payload
//! (booleans, 32 bit integers and floats, 64 bit floats) or a length
//! prefixed byte string (quoted and unquoted text).
use vstd::prelude::*;

verus! {

/// `=`
pub const EQUAL: u16 = 0x0001;

/// `{`
pub const OPEN: u16 = 0x0003;

/// `}`
pub const CLOSE: u16 = 0x0004;

/// A signed 32 bit integer
pub const I32: u16 = 0x000c;

/// A fixed point number stored in 32 bits
pub const F32: u16 = 0x000d;

/// A boolean stored in one byte
pub const BOOL: u16 = 0x000e;

/// A quoted byte string
pub const QUOTED: u16 = 0x000f;

/// An unsigned 32 bit integer
pub const U32: u16 = 0x0014;

/// An unquoted byte string
pub const UNQUOTED: u16 = 0x0017;

/// A fixed point number stored in 64 bits
pub const F64: u16 = 0x0167;

/// Little endian value of two bytes.
pub open spec fn le_u16(b0: u8, b1: u8) -> int {
    b0 + 256 * b1
}

/// Little endian value of the four bytes of `s` starting at `at`.
pub open spec fn le_u32(s: Seq<u8>, at: int) -> int {
    s[at] + 256 * s[at + 1] + 65536 * s[at + 2] + 16777216 * s[at + 3]
}

/// Two's complement reading of the four bytes of `s` starting at `at`.
pub open spec fn le_i32(s: Seq<u8>, at: int) -> int {
    let u = le_u32(s, at);
    if u < 0x8000_0000 {
        u
    } else {
        u - 0x1_0000_0000
    }
}

/// The identifier of the token at the start of `s`.
pub open spec fn token_id(s: Seq<u8>) -> int {
    le_u16(s[0], s[1])
}

/// The number of bytes that a token with this identifier occupies, given the
/// bytes that follow it. `None` when the identifier or the length prefix is
/// itself incomplete.
pub open spec fn declared_size(s: Seq<u8>) -> Option<int> {
    if s.len() < 2 {
        None
    } else {
        let id = token_id(s);
        if id == BOOL {
            Some(3)
        } else if id == I32 || id == F32 || id == U32 {
            Some(6)
        } else if id == F64 {
            Some(10)
        } else if id == QUOTED || id == UNQUOTED {
            if s.len() < 4 {
                None
            } else {
                Some(4 + le_u16(s[2], s[3]))
            }
        } else {
            Some(2)
        }
    }
}

/// The size of the token at the start of `s` when all of its bytes are
/// present, `None` when more data is needed to read it.
pub open spec fn token_size(s: Seq<u8>) -> Option<int> {
    match declared_size(s) {
        Some(n) => if n <= s.len() {
            Some(n)
        } else {
            None
        },
        None => None,
    }
}

/// A token read from the binary format. Strings borrow the input bytes.
#[derive(Debug, Clone, PartialEq)]
pub enum Eu4Token<'a> {
    Open,
    Close,
    Equal,
    Field(u16),
    Bool(bool),
    U32(u32),
    I32(i32),
    Quoted(&'a [u8]),
    Unquoted(&'a [u8]),
    F32([u8; 4]),
    F64([u8; 8]),
}

/// What a token does to the structure of a document.
#[derive(Debug, Clone, Copy, PartialEq, Eq, Structural)]
pub enum StructureKind {
    Open,
    Close,
    Equal,
    Value,
}

impl<'a> Eu4Token<'a> {
    /// Whether the token opens or closes a container, separates a key from
    /// its value, or is a value.
    pub fn structure(&self) -> (k: StructureKind)
        ensures
            k == (match *self {
                Eu4Token::Open => StructureKind::Open,
                Eu4Token::Close => StructureKind::Close,
                Eu4Token::Equal => StructureKind::Equal,
                _ => StructureKind::Value,
            }),
    {
        match self {
            Eu4Token::Open => StructureKind::Open,
            Eu4Token::Close => StructureKind::Close,
            Eu4Token::Equal => StructureKind::Equal,
            _ => StructureKind::Value,
        }
    }
}

/// `t` is the token encoded by the first `n` bytes of `s`.
pub open spec fn token_decodes(t: Eu4Token, s: Seq<u8>, n: int) -> bool {
    let id = token_id(s);
    match t {
        Eu4Token::Open => id == OPEN,
        Eu4Token::Close => id == CLOSE,
        Eu4Token::Equal => id == EQUAL,
        Eu4Token::Bool(b) => id == BOOL && b == (s[2] != 0),
        Eu4Token::U32(v) => id == U32 && v == le_u32(s, 2),
        Eu4Token::I32(v) => id == I32 && v == le_i32(s, 2),
        Eu4Token::Quoted(q) => id == QUOTED && q@ == s.subrange(4, n),
        Eu4Token::Unquoted(q) => id == UNQUOTED && q@ == s.subrange(4, n),
        Eu4Token::F32(a) => id == F32 && a@ == s.subrange(2, 6),
        Eu4Token::F64(a) => id == F64 && a@ == s.subrange(2, 10),
        Eu4Token::Field(f) => f == id && id != OPEN && id != CLOSE && id != EQUAL && id != BOOL
            && id != U32 && id != I32 && id != QUOTED && id != UNQUOTED && id != F32 && id
            != F64,
    }
}

/// Outcome of reading one token from a buffer.
#[derive(Debug, Clone, PartialEq)]
pub enum TokenResult<'a> {
    /// The buffer ends before the token does.
    MoreData,
    /// A token and the number of bytes it occupied.
    Token(Eu4Token<'a>, usize),
}

fn read_u16(data: &[u8], at: usize) -> (v: u16)
    requires
        at + 2 <= data@.len(),
    ensures
        v == le_u16(data@[at as int], data@[at + 1]),
{
    data[at] as u16 + (data[at + 1] as u16) * 256
}

fn read_u32(data: &[u8], at: usize) -> (v: u32)
    requires
        at + 4 <= data@.len(),
    ensures
        v == le_u32(data@, at as int),
{
    data[at] as u32 + (data[at + 1] as u32) * 256 + (data[at + 2] as u32) * 65536 + (data[at
        + 3] as u32) * 16777216
}

fn read_i32(data: &[u8], at: usize) -> (v: i32)
    requires
        at + 4 <= data@.len(),
    ensures
        v == le_i32(data@, at as int),
{
    let u = read_u32(data, at) as i64;
    if u < 0x8000_0000 {
        u as i32
    } else {
        (u - 0x1_0000_0000) as i32
    }
}

/// The size of the token at the start of `data`, or `None` when the buffer
/// ends before it does.
pub fn token_size_of(data: &[u8]) -> (r: Option<usize>)
    ensures
        r is None <==> token_size(data@) is None,
        r matches Some(n) ==> token_size(data@) == Some(n as int),
{
    if data.len() < 2 {
        return None;
    }
    let id = read_u16(data, 0);
    let n: usize = if id == BOOL {
        3
    } else if id == I32 || id == F32 || id == U32 {
        6
    } else if id == F64 {
        10
    } else if id == QUOTED || id == UNQUOTED {
        if data.len() < 4 {
            return None;
        }
        4 + read_u16(data, 2) as usize
    } else {
        2
    };
    if n <= data.len() {
        Some(n)
    } else {
        None
    }
}

/// Every complete token occupies at least its two byte identifier and no
/// more than the bytes available.
pub proof fn lemma_token_size_bounds(s: Seq<u8>)
    ensures
        token_size(s) matches Some(n) ==> 2 <= n <= s.len(),
{
}

/// A complete token is read the same way whatever bytes follow it.
pub proof fn lemma_token_size_prefix(s: Seq<u8>, t: Seq<u8>)
    requires
        token_size(s) is Some,
    ensures
        token_size(s + t) == token_size(s),
        token_id(s + t) == token_id(s),
{
    assert((s + t)[0] == s[0]);
    assert((s + t)[1] == s[1]);
    if s.len() >= 4 {
        assert((s + t)[2] == s[2]);
        assert((s + t)[3] == s[3]);
    }
}

/// Eu4 binary token format
#[derive(Debug, Default)]
pub struct Eu4Format;

impl Eu4Format {
    /// Reads the token at the start of `data`.
    pub fn next_token<'a>(&mut self, data: &'a [u8]) -> (r: TokenResult<'a>)
        ensures
            r is MoreData <==> token_size(data@) is None,
            r matches TokenResult::Token(t, n) ==> token_size(data@) == Some(n as int)
                && token_decodes(t, data@, n as int),
    {
        let size = token_size_of(data);
        let n = match size {
            None => return TokenResult::MoreData,
            Some(n) => n,
        };
        let id = read_u16(data, 0);
        let token = if id == OPEN {
            Eu4Token::Open
        } else if id == CLOSE {
            Eu4Token::Close
        } else if id == EQUAL {
            Eu4Token::Equal
        } else if id == BOOL {
            Eu4Token::Bool(data[2] != 0)
        } else if id == U32 {
            Eu4Token::U32(read_u32(data, 2))
        } else if id == I32 {
            Eu4Token::I32(read_i32(data, 2))
        } else if id == QUOTED {
            Eu4Token::Quoted(&data[4..n])
        } else if id == UNQUOTED {
            Eu4Token::Unquoted(&data[4..n])
        } else if id == F32 {
            Eu4Token::F32([data[2], data[3], data[4], data[5]])
        } else if id == F64 {
            Eu4Token::F64(
                [data[2], data[3], data[4], data[5], data[6], data[7], data[8], data[9]],
            )
        } else {
            Eu4Token::Field(id)
        };
        proof {
            if let Eu4Token::F32(a) = token {
                assert(a@ =~= data@.subrange(2, 6));
            }
            if let Eu4Token::F64(a) = token {
                assert(a@ =~= data@.subrange(2, 10));
            }
        }
        TokenResult::Token(token, n)
    }
}

/// Where a skip stopped when it ran out of buffered bytes.
#[derive(Debug, Clone, Copy, PartialEq, Eq, Structural)]
pub enum SkipState {
    /// Nothing of the value has been consumed yet.
    Start,
    /// Inside a container, at this nesting depth (at least one).
    Container(usize),
}

/// Result of skipping over a value in a buffer.
#[derive(Debug, Clone, Copy, PartialEq, Eq, Structural)]
pub enum SkipProgress {
    /// The value ended after this many bytes.
    Done(usize),
    /// This many bytes were consumed and more data is needed to continue from
    /// the given state.
    NeedMore(usize, SkipState),
}

/// Scan within a container at `depth` (at least one): the number of bytes
/// consumed, and `None` when the container closed or `Some(d)` when the
/// buffer ran out at depth `d`.
pub open spec fn scan_container(s: Seq<u8>, depth: nat) -> (int, Option<nat>)
    decreases s.len(),
{
    match token_size(s) {
        None => (0, Some(depth)),
        Some(n) => {
            let id = token_id(s);
            if id == CLOSE {
                if depth <= 1 {
                    (2, None)
                } else {
                    let r = scan_container(s.skip(2), (depth - 1) as nat);
                    (r.0 + 2, r.1)
                }
            } else if id == OPEN {
                let r = scan_container(s.skip(2), depth + 1);
                (r.0 + 2, r.1)
            } else {
                let r = scan_container(s.skip(n), depth);
                (r.0 + n, r.1)
            }
        },
    }
}

/// Turns a container scan that started after `offset` bytes into progress.
pub open spec fn scan_progress(r: (int, Option<nat>), offset: int) -> (int, Option<SkipSpecState>) {
    match r.1 {
        None => (r.0 + offset, None),
        Some(d) => (r.0 + offset, Some(SkipSpecState::Container(d))),
    }
}

/// Mathematical form of a skip state.
pub enum SkipSpecState {
    Start,
    Container(nat),
}

pub open spec fn spec_state(s: SkipState) -> SkipSpecState {
    match s {
        SkipState::Start => SkipSpecState::Start,
        SkipState::Container(d) => SkipSpecState::Container(d as nat),
    }
}

/// Skipping one value from `state` over the bytes `s`: the bytes consumed,
/// and `None` when the value ended or the state to resume from.
pub open spec fn skip_spec(state: SkipSpecState, s: Seq<u8>) -> (int, Option<SkipSpecState>) {
    match state {
        SkipSpecState::Start => match token_size(s) {
            None => (0, Some(SkipSpecState::Start)),
            Some(n) => if token_id(s) == OPEN {
                scan_progress(scan_container(s.skip(2), 1), 2)
            } else {
                (n, None)
            },
        },
        SkipSpecState::Container(d) => scan_progress(scan_container(s, d), 0),
    }
}

pub open spec fn progress_matches(p: SkipProgress, r: (int, Option<SkipSpecState>)) -> bool {
    match p {
        SkipProgress::Done(c) => r.1 is None && r.0 == c,
        SkipProgress::NeedMore(c, st) => r.1 == Some(spec_state(st)) && r.0 == c,
    }
}

pub open spec fn state_depth(s: SkipState) -> nat {
    match s {
        SkipState::Start => 0,
        SkipState::Container(d) => d as nat,
    }
}

proof fn lemma_scan_bounds(s: Seq<u8>, depth: nat)
    requires
        depth >= 1,
    ensures
        0 <= scan_container(s, depth).0 <= s.len(),
        scan_container(s, depth).1 matches Some(d) ==> 1 <= d <= depth + s.len(),
    decreases s.len(),
{
    match token_size(s) {
        None => {},
        Some(n) => {
            let id = token_id(s);
            if id == CLOSE {
                if depth > 1 {
                    lemma_scan_bounds(s.skip(2), (depth - 1) as nat);
                }
            } else if id == OPEN {
                lemma_scan_bounds(s.skip(2), depth + 1);
            } else {
                lemma_scan_bounds(s.skip(n), depth);
            }
        },
    }
}

/// Scans a container from `start` in `data`, at `depth`.
fn scan_container_exec(data: &[u8], start: usize, depth_in: usize) -> (r: (usize, Option<usize>))
    requires
        start <= data@.len(),
        depth_in >= 1,
        depth_in + data@.len() < usize::MAX,
    ensures
        r.0 == scan_container(data@.skip(start as int), depth_in as nat).0,
        r.0 <= data@.len() - start,
        r.1 matches Some(d) ==> scan_container(data@.skip(start as int), depth_in as nat).1
            == Some(d as nat),
        r.1 is None ==> scan_container(data@.skip(start as int), depth_in as nat).1 is None,
{
    let ghost whole = data@.skip(start as int);
    let ghost depth0 = depth_in as nat;
    let mut pos = start;
    let mut depth = depth_in;
    proof {
        assert(data@.skip(pos as int) =~= whole);
        lemma_scan_bounds(whole, depth0);
    }
    loop
        invariant
            start <= pos <= data@.len(),
            1 <= depth,
            depth + data@.len() - pos + start <= depth0 + data@.len(),
            depth0 + data@.len() < usize::MAX,
            depth0 == depth_in as nat,
            whole == data@.skip(start as int),
            scan_container(whole, depth0) == ({
                let r = scan_container(data@.skip(pos as int), depth as nat);
                (r.0 + (pos - start), r.1)
            }),
            scan_container(data@.skip(pos as int), depth as nat).0 <= data@.len() - pos,
        decreases data@.len() - pos,
    {
        let rest = &data[pos..data.len()];
        proof {
            assert(rest@ =~= data@.skip(pos as int));
        }
        let size = token_size_of(rest);
        proof {
            lemma_token_size_bounds(rest@);
        }
        match size {
            None => {
                assert(scan_container(data@.skip(pos as int), depth as nat) == (0int, Some(
                    depth as nat,
                )));
                return (pos - start, Some(depth));
            },
            Some(n) => {
                let id = read_u16(rest, 0);
                proof {
                    assert(data@.skip(pos as int).skip(n as int) =~= data@.skip(pos + n));
                }
                if id == CLOSE {
                    if depth <= 1 {
                        return (pos + 2 - start, None);
                    }
                    depth = depth - 1;
                    pos = pos + 2;
                } else if id == OPEN {
                    depth = depth + 1;
                    pos = pos + 2;
                } else {
                    pos = pos + n;
                }
                proof {
                    lemma_scan_bounds(data@.skip(pos as int), depth as nat);
                }
            },
        }
    }
}

/// Skips over one value (a scalar, or a container with everything nested in
/// it) at the start of `data`, resuming from `state`.
///
/// When the buffer runs out first, reports how many bytes may be discarded
/// and the state to resume from once more bytes follow them.
pub fn skip_value_step(state: SkipState, data: &[u8]) -> (p: SkipProgress)
    requires
        state_depth(state) + data@.len() + 1 < usize::MAX,
        state matches SkipState::Container(d) ==> d >= 1,
    ensures
        progress_matches(p, skip_spec(spec_state(state), data@)),
{
    match state {
        SkipState::Start => {
            let size = token_size_of(data);
            match size {
                None => SkipProgress::NeedMore(0, SkipState::Start),
                Some(n) => {
                    let id = read_u16(data, 0);
                    if id == OPEN {
                        let r = scan_container_exec(data, 2, 1);
                        match r.1 {
                            None => SkipProgress::Done(r.0 + 2),
                            Some(d) => SkipProgress::NeedMore(r.0 + 2, SkipState::Container(d)),
                        }
                    } else {
                        SkipProgress::Done(n)
                    }
                },
            }
        },
        SkipState::Container(d) => {
            let r = scan_container_exec(data, 0, d);
            proof {
                assert(data@.skip(0) =~= data@);
            }
            match r.1 {
                None => SkipProgress::Done(r.0),
                Some(d2) => SkipProgress::NeedMore(r.0, SkipState::Container(d2)),
            }
        },
    }
}

/// A container scan that finished does not depend on the bytes after it.
pub proof fn law_scan_finished_ignores_suffix(s: Seq<u8>, t: Seq<u8>, depth: nat)
    requires
        depth >= 1,
        scan_container(s, depth).1 is None,
    ensures
        scan_container(s + t, depth) == scan_container(s, depth),
    decreases s.len(),
{
    match token_size(s) {
        None => {},
        Some(n) => {
            lemma_token_size_prefix(s, t);
            let id = token_id(s);
            if id == CLOSE {
                if depth > 1 {
                    assert((s + t).skip(2) =~= s.skip(2) + t);
                    law_scan_finished_ignores_suffix(s.skip(2), t, (depth - 1) as nat);
                }
            } else if id == OPEN {
                assert((s + t).skip(2) =~= s.skip(2) + t);
                law_scan_finished_ignores_suffix(s.skip(2), t, depth + 1);
            } else {
                assert((s + t).skip(n) =~= s.skip(n) + t);
                law_scan_finished_ignores_suffix(s.skip(n), t, depth);
            }
        },
    }
}

/// A container scan that ran out of bytes can be resumed: scanning the
/// buffer extended by `t` is the same as discarding the consumed bytes and
/// resuming from the reported depth on what is left followed by `t`.
pub proof fn law_scan_resumes(s: Seq<u8>, t: Seq<u8>, depth: nat)
    requires
        depth >= 1,
        scan_container(s, depth).1 is Some,
    ensures
        ({
            let c = scan_container(s, depth).0;
            let d = scan_container(s, depth).1.unwrap();
            let r = scan_container(s.skip(c) + t, d);
            scan_container(s + t, depth) == (r.0 + c, r.1)
        }),
    decreases s.len(),
{
    match token_size(s) {
        None => {
            assert(s.skip(0) =~= s);
        },
        Some(n) => {
            lemma_token_size_prefix(s, t);
            lemma_token_size_bounds(s);
            let id = token_id(s);
            if id == CLOSE {
                assert((s + t).skip(2) =~= s.skip(2) + t);
                let c1 = scan_container(s.skip(2), (depth - 1) as nat).0;
                lemma_scan_bounds(s.skip(2), (depth - 1) as nat);
                assert(s.skip(2).skip(c1) =~= s.skip(c1 + 2));
                law_scan_resumes(s.skip(2), t, (depth - 1) as nat);
            } else if id == OPEN {
                assert((s + t).skip(2) =~= s.skip(2) + t);
                let c1 = scan_container(s.skip(2), depth + 1).0;
                lemma_scan_bounds(s.skip(2), depth + 1);
                assert(s.skip(2).skip(c1) =~= s.skip(c1 + 2));
                law_scan_resumes(s.skip(2), t, depth + 1);
            } else {
                assert((s + t).skip(n) =~= s.skip(n) + t);
                let c1 = scan_container(s.skip(n), depth).0;
                lemma_scan_bounds(s.skip(n), depth);
                assert(s.skip(n).skip(c1) =~= s.skip(c1 + n));
                law_scan_resumes(s.skip(n), t, depth);
            }
        },
    }
}

/// Skipping a value in pieces is skipping it in one go: when a skip over
/// `s` runs out of bytes, resuming from the state it reports on what it left
/// followed by `t` consumes, together with the first piece, what a skip over
/// `s + t` consumes, and ends the same way.
pub proof fn law_skip_resumes(state: SkipSpecState, s: Seq<u8>, t: Seq<u8>)
    requires
        state matches SkipSpecState::Container(d) ==> d >= 1,
        skip_spec(state, s).1 is Some,
    ensures
        ({
            let c = skip_spec(state, s).0;
            let r = skip_spec(skip_spec(state, s).1.unwrap(), s.skip(c) + t);
            skip_spec(state, s + t) == (r.0 + c, r.1)
        }),
{
    match state {
        SkipSpecState::Start => match token_size(s) {
            None => {
                assert(s.skip(0) =~= s);
            },
            Some(n) => {
                lemma_token_size_prefix(s, t);
                lemma_token_size_bounds(s);
                assert(token_id(s) == OPEN);
                assert((s + t).skip(2) =~= s.skip(2) + t);
                let c1 = scan_container(s.skip(2), 1).0;
                lemma_scan_bounds(s.skip(2), 1);
                assert(s.skip(2).skip(c1) =~= s.skip(c1 + 2));
                law_scan_resumes(s.skip(2), t, 1);
            },
        },
        SkipSpecState::Container(d) => {
            law_scan_resumes(s, t, d);
        },
    }
}

/// A skip that finished does not depend on the bytes after what it
/// consumed: one complete value is skipped, whatever follows it.
pub proof fn law_skip_finished_ignores_suffix(state: SkipSpecState, s: Seq<u8>, t: Seq<u8>)
    requires
        state matches SkipSpecState::Container(d) ==> d >= 1,
        skip_spec(state, s).1 is None,
    ensures
        skip_spec(state, s + t) == skip_spec(state, s),
{
    match state {
        SkipSpecState::Start => match token_size(s) {
            None => {},
            Some(n) => {
                lemma_token_size_prefix(s, t);
                if token_id(s) == OPEN {
                    assert((s + t).skip(2) =~= s.skip(2) + t);
                    law_scan_finished_ignores_suffix(s.skip(2), t, 1);
                }
            },
        },
        SkipSpecState::Container(d) => {
            law_scan_finished_ignores_suffix(s, t, d);
        },
    }
}

/// The tokens at the start of `s`, each as its identifier and size, up to
/// the first one that is not complete.
pub open spec fn token_walk(s: Seq<u8>) -> Seq<(int, int)>
    decreases s.len(),
{
    match token_size(s) {
        None => Seq::empty(),
        Some(n) => if 2 <= n <= s.len() {
            seq![(token_id(s), n)] + token_walk(s.skip(n))
        } else {
            Seq::empty()
        },
    }
}

/// How a token changes the nesting depth: `{` opens, `}` closes, every
/// other token (numbers and strings whatever their bytes) leaves it.
pub open spec fn depth_change(id: int) -> int {
    if id == OPEN {
        1
    } else if id == CLOSE {
        -1
    } else {
        0
    }
}

/// The change of depth over the first `k` tokens of a walk.
pub open spec fn walk_depth(w: Seq<(int, int)>, k: int) -> int
    decreases k,
{
    if k <= 0 || w.len() == 0 {
        0
    } else {
        depth_change(w[0].0) + walk_depth(w.drop_first(), k - 1)
    }
}

/// The bytes of the first `k` tokens of a walk.
pub open spec fn walk_bytes(w: Seq<(int, int)>, k: int) -> int
    decreases k,
{
    if k <= 0 || w.len() == 0 {
        0
    } else {
        w[0].1 + walk_bytes(w.drop_first(), k - 1)
    }
}

/// Whether the value that a walk starts with ends with its `k`-th token:
/// the depth returns to where it started there and not before.
pub open spec fn value_closes(w: Seq<(int, int)>, k: int) -> bool {
    &&& 1 <= k <= w.len()
    &&& walk_depth(w, k) == 0
    &&& forall|j: int| 1 <= j < k ==> #[trigger] walk_depth(w, j) > 0
}

proof fn lemma_walk_step(s: Seq<u8>)
    requires
        token_size(s) is Some,
    ensures
        token_walk(s).len() > 0,
        token_walk(s)[0] == (token_id(s), token_size(s).unwrap()),
        token_walk(s).drop_first() == token_walk(s.skip(token_size(s).unwrap())),
{
    lemma_token_size_bounds(s);
    let n = token_size(s).unwrap();
    assert(token_walk(s).drop_first() =~= token_walk(s.skip(n)));
}

proof fn lemma_scan_walk_closes(s: Seq<u8>, depth: nat, k: int)
    requires
        depth >= 1,
        0 <= k <= token_walk(s).len(),
        depth + walk_depth(token_walk(s), k) == 0,
        forall|j: int| 0 <= j < k ==> depth + #[trigger] walk_depth(token_walk(s), j) > 0,
    ensures
        scan_container(s, depth) == (walk_bytes(token_walk(s), k), None::<nat>),
    decreases s.len(),
{
    let w = token_walk(s);
    assert(depth + walk_depth(w, 0) > 0);
    assert(k >= 1);
    assert(token_size(s) is Some);
    lemma_walk_step(s);
    lemma_token_size_bounds(s);
    let n = token_size(s).unwrap();
    let id = token_id(s);
    let rest = s.skip(n);
    let w2 = token_walk(rest);
    assert(w.drop_first() == w2);
    assert forall|j: int| 1 <= j <= k implies walk_depth(w, j) == depth_change(id) + #[trigger] walk_depth(w2, j - 1) by {
    }
    assert(walk_bytes(w, k) == n + walk_bytes(w2, k - 1));
    if id == CLOSE {
        assert(n == 2);
        if depth <= 1 {
            assert(walk_depth(w2, 0) == 0);
            assert(walk_depth(w, 1) == -1);
            if k > 1 {
                assert(depth + walk_depth(w, 1) > 0);
            }
            assert(k == 1);
            assert(walk_bytes(w2, 0) == 0);
        } else {
            assert forall|j: int| 0 <= j < k - 1 implies (depth - 1) as nat + #[trigger] walk_depth(w2, j) > 0 by {
                assert(depth + walk_depth(w, j + 1) > 0);
            }
            lemma_scan_walk_closes(rest, (depth - 1) as nat, k - 1);
        }
    } else if id == OPEN {
        assert(n == 2);
        assert forall|j: int| 0 <= j < k - 1 implies depth + 1 + #[trigger] walk_depth(w2, j) > 0 by {
            assert(depth + walk_depth(w, j + 1) > 0);
        }
        lemma_scan_walk_closes(rest, depth + 1, k - 1);
    } else {
        assert forall|j: int| 0 <= j < k - 1 implies depth + #[trigger] walk_depth(w2, j) > 0 by {
            assert(depth + walk_depth(w, j + 1) > 0);
        }
        lemma_scan_walk_closes(rest, depth, k - 1);
    }
}

proof fn lemma_scan_walk_open(s: Seq<u8>, depth: nat)
    requires
        depth >= 1,
        forall|j: int| 0 <= j <= token_walk(s).len() ==> depth + #[trigger] walk_depth(token_walk(s), j) > 0,
    ensures
        scan_container(s, depth).1 is Some,
    decreases s.len(),
{
    let w = token_walk(s);
    match token_size(s) {
        None => {},
        Some(n) => {
            lemma_walk_step(s);
            lemma_token_size_bounds(s);
            let id = token_id(s);
            let rest = s.skip(n);
            let w2 = token_walk(rest);
            assert(w.drop_first() == w2);
            assert(depth + walk_depth(w, 1) > 0);
            assert forall|j: int| 1 <= j <= w.len() implies walk_depth(w, j) == depth_change(id) + #[trigger] walk_depth(w2, j - 1) by {
            }
            if id == CLOSE {
                assert(walk_depth(w2, 0) == 0);
                assert(depth > 1);
                assert forall|j: int| 0 <= j <= w2.len() implies (depth - 1) as nat + #[trigger] walk_depth(w2, j) > 0 by {
                    assert(depth + walk_depth(w, j + 1) > 0);
                }
                lemma_scan_walk_open(rest, (depth - 1) as nat);
            } else if id == OPEN {
                assert forall|j: int| 0 <= j <= w2.len() implies depth + 1 + #[trigger] walk_depth(w2, j) > 0 by {
                    assert(depth + walk_depth(w, j + 1) > 0);
                }
                lemma_scan_walk_open(rest, depth + 1);
            } else {
                assert forall|j: int| 0 <= j <= w2.len() implies depth + #[trigger] walk_depth(w2, j) > 0 by {
                    assert(depth + walk_depth(w, j + 1) > 0);
                }
                lemma_scan_walk_open(rest, depth);
            }
        },
    }
}

/// Skipping a value from its start consumes exactly that one value. A
/// token other than `{` is the whole value: its own size (a bool 3 bytes,
/// 32 bit numbers 6, a 64 bit number 10, a string 4 and its declared length,
/// any other token 2). A `{` starts a container that ends with the token
/// where the depth, changed only by `{` and `}` tokens and never by the bytes
/// inside numbers or strings, first returns to zero; the skip consumes the
/// bytes of all tokens up to and including it. While the buffer holds no
/// such token, the skip asks for more bytes.
pub proof fn law_skip_consumes_one_value(s: Seq<u8>, k: int)
    requires
        token_size(s) is Some,
    ensures
        token_id(s) != OPEN ==> skip_spec(SkipSpecState::Start, s) == (token_size(s).unwrap(), None::<SkipSpecState>),
        token_id(s) == OPEN && value_closes(token_walk(s), k) ==> skip_spec(SkipSpecState::Start, s) == (
            walk_bytes(token_walk(s), k),
            None::<SkipSpecState>,
        ),
        token_id(s) == OPEN && (forall|j: int| 1 <= j <= token_walk(s).len() ==> #[trigger] walk_depth(token_walk(s), j) > 0)
            ==> skip_spec(SkipSpecState::Start, s).1 is Some,
{
    if token_id(s) == OPEN {
        lemma_walk_step(s);
        lemma_token_size_bounds(s);
        let w = token_walk(s);
        let rest = s.skip(2);
        let w2 = token_walk(rest);
        assert(token_size(s) == Some(2int));
        assert(w.drop_first() == w2);
        assert forall|j: int| 1 <= j <= w.len() implies walk_depth(w, j) == 1 + #[trigger] walk_depth(w2, j - 1) by {
        }
        if value_closes(w, k) {
            assert forall|j: int| 0 <= j < k - 1 implies 1 + #[trigger] walk_depth(w2, j) > 0 by {
                if j > 0 {
                    assert(walk_depth(w, j + 1) > 0);
                }
            }
            lemma_scan_walk_closes(rest, 1, k - 1);
            assert(walk_bytes(w, k) == 2 + walk_bytes(w2, k - 1));
        }
        if forall|j: int| 1 <= j <= w.len() ==> #[trigger] walk_depth(w, j) > 0 {
            assert forall|j: int| 0 <= j <= w2.len() implies 1 + #[trigger] walk_depth(w2, j) > 0 by {
                assert(walk_depth(w, j + 1) > 0);
            }
            lemma_scan_walk_open(rest, 1);
        }
    }
}

} // verus!
