//! Names of the tokens of binary (ironman) saves.
use vstd::prelude::*;
use vstd::string::{StrSliceExecFns, StringExecFns};

verus! {

/// The name of `token` in a table of (token, name) pairs: the first pair
/// with that token wins.
pub open spec fn lookup_token(entries: Seq<(u16, Seq<char>)>, token: u16) -> Option<Seq<char>>
    decreases entries.len(),
{
    if entries.len() == 0 {
        None
    } else if entries[0].0 == token {
        Some(entries[0].1)
    } else {
        lookup_token(entries.skip(1), token)
    }
}

/// Token names supplied by the user, as the `EU4_IRONMAN_TOKENS` file
/// lists them. Without that file no token has a name.
#[derive(Debug)]
pub struct EnvTokens {
    entries: Vec<(u16, String)>,
}

impl View for EnvTokens {
    type V = Seq<(u16, Seq<char>)>;

    closed spec fn view(&self) -> Seq<(u16, Seq<char>)> {
        self.entries@.map_values(|e: (u16, String)| (e.0, e.1@))
    }
}

impl EnvTokens {
    /// No token names.
    pub fn new() -> (t: EnvTokens)
        ensures
            t@ == Seq::<(u16, Seq<char>)>::empty(),
    {
        EnvTokens { entries: Vec::new() }
    }

    /// Adds a token name after those already known.
    pub fn push(&mut self, token: u16, name: String)
        ensures
            final(self)@ == old(self)@.push((token, name@)),
    {
        self.entries.push((token, name));
        proof {
            assert(final(self)@ =~= old(self)@.push((token, name@)));
        }
    }

    /// Adds the token of a line of a token file, if the line holds one.
    pub fn push_line(&mut self, line: &str) -> (added: bool)
        ensures
            added == token_line(line@) is Some,
            match token_line(line@) {
                Some((v, name)) => final(self)@ == old(self)@.push((v, name)),
                None => final(self)@ == old(self)@,
            },
    {
        match parse_token_line(line) {
            Some((v, name)) => {
                self.push(v, name);
                true
            },
            None => false,
        }
    }

    /// The name of a token.
    pub fn resolve(&self, token: u16) -> (r: Option<&str>)
        ensures
            match r {
                Some(s) => lookup_token(self@, token) == Some(s@),
                None => lookup_token(self@, token) is None,
            },
    {
        let mut i: usize = 0;
        proof {
            assert(self@.skip(0) =~= self@);
        }
        while i < self.entries.len()
            invariant
                i <= self.entries@.len(),
                self@.len() == self.entries@.len(),
                lookup_token(self@, token) == lookup_token(self@.skip(i as int), token),
            decreases self.entries@.len() - i,
        {
            proof {
                assert(self@.skip(i as int).skip(1) =~= self@.skip(i + 1));
                assert(self@[i as int] == (self.entries@[i as int].0, self.entries@[i as int].1@));
            }
            if self.entries[i].0 == token {
                return Some(self.entries[i].1.as_str());
            }
            i = i + 1;
        }
        proof {
            assert(self@.skip(i as int) =~= Seq::<(u16, Seq<char>)>::empty());
        }
        None
    }
}

/// The index of the first space of `s`.
pub open spec fn first_space(s: Seq<char>) -> Option<int>
    decreases s.len(),
{
    if s.len() == 0 {
        None
    } else if s[0] == ' ' {
        Some(0)
    } else {
        match first_space(s.skip(1)) {
            Some(k) => Some(k + 1),
            None => None,
        }
    }
}

/// The value of a digit in base 10, or base 16 (either case) when `hex`.
pub open spec fn digit_value(c: char, hex: bool) -> Option<nat> {
    if '0' <= c <= '9' {
        Some((c as int - '0' as int) as nat)
    } else if hex && 'a' <= c <= 'f' {
        Some((c as int - 'a' as int + 10) as nat)
    } else if hex && 'A' <= c <= 'F' {
        Some((c as int - 'A' as int + 10) as nat)
    } else {
        None
    }
}

/// The number that the digits `s` write, if they are all digits and
/// there is at least one.
pub open spec fn digits_value(s: Seq<char>, hex: bool) -> Option<nat>
    decreases s.len(),
{
    if s.len() == 0 {
        None
    } else if s.len() == 1 {
        digit_value(s[0], hex)
    } else {
        match (digits_value(s.drop_last(), hex), digit_value(s.last(), hex)) {
            (Some(a), Some(d)) => Some(
                if hex {
                    a * 16 + d
                } else {
                    a * 10 + d
                },
            ),
            _ => None,
        }
    }
}

/// The number an integer literal writes: `0x` and hexadecimal digits, or
/// decimal digits.
pub open spec fn literal_value(s: Seq<char>) -> Option<nat> {
    if s.len() >= 2 && s[0] == '0' && s[1] == 'x' {
        digits_value(s.skip(2), true)
    } else {
        digits_value(s, false)
    }
}

pub open spec fn is_blank(c: char) -> bool {
    c == ' ' || c == '\t' || c == '\n' || c == '\r' || c == '\x0C'
}

/// `s` without the blanks at its start.
pub open spec fn trim_start(s: Seq<char>) -> Seq<char>
    decreases s.len(),
{
    if s.len() > 0 && is_blank(s[0]) {
        trim_start(s.skip(1))
    } else {
        s
    }
}

/// `s` without the blanks at its end.
pub open spec fn trim_end(s: Seq<char>) -> Seq<char>
    decreases s.len(),
{
    if s.len() > 0 && is_blank(s.last()) {
        trim_end(s.drop_last())
    } else {
        s
    }
}

/// A line of a token file: the token as an integer literal, a space, and
/// its name, which is read without the blanks around it.
pub open spec fn token_line(line: Seq<char>) -> Option<(u16, Seq<char>)> {
    match first_space(line) {
        None => None,
        Some(k) => match literal_value(line.take(k)) {
            Some(v) => if v <= 0xFFFF {
                Some((v as u16, trim_end(trim_start(line.skip(k + 1)))))
            } else {
                None
            },
            None => None,
        },
    }
}

fn digit_of(c: char, hex: bool) -> (r: Option<u32>)
    ensures
        match digit_value(c, hex) {
            Some(d) => r == Some(d as u32),
            None => r is None,
        },
{
    if '0' <= c && c <= '9' {
        Some((c as u32) - ('0' as u32))
    } else if hex && 'a' <= c && c <= 'f' {
        Some((c as u32) - ('a' as u32) + 10)
    } else if hex && 'A' <= c && c <= 'F' {
        Some((c as u32) - ('A' as u32) + 10)
    } else {
        None
    }
}

pub open spec fn capped(x: nat) -> nat {
    if x > 0x10000 {
        0x10000
    } else {
        x
    }
}

/// The value of the digits of `s` from `from` to `to`, capped just above
/// the largest token.
fn parse_digits(s: &str, from: usize, to: usize, hex: bool) -> (r: Option<u32>)
    requires
        from <= to <= s@.len(),
    ensures
        match digits_value(s@.subrange(from as int, to as int), hex) {
            Some(v) => r == Some(capped(v) as u32),
            None => r is None,
        },
{
    if from == to {
        return None;
    }
    let ghost t = s@.subrange(from as int, to as int);
    let mut acc: u32 = 0;
    let mut i: usize = from;
    while i < to
        invariant
            from <= i <= to <= s@.len(),
            t == s@.subrange(from as int, to as int),
            acc <= 0x10000,
            i == from ==> acc == 0,
            i > from ==> (digits_value(t.take(i - from), hex) matches Some(v) && acc == capped(v)),
        decreases to - i,
    {
        let c = s.get_char(i);
        let d = match digit_of(c, hex) {
            Some(d) => d,
            None => {
                proof {
                    lemma_digits_invalid(t, (i - from) as int, hex);
                }
                return None;
            },
        };
        let next = if hex {
            acc * 16 + d
        } else {
            acc * 10 + d
        };
        proof {
            assert(t[i - from] == c);
            let k = (i - from) as int;
            assert(t.take(k + 1).drop_last() =~= t.take(k));
            assert(t.take(k + 1).last() == c);
            assert(digit_value(c, hex) == Some(d as nat));
            if k == 0 {
                assert(t.take(1)[0] == c);
                assert(digits_value(t.take(1), hex) == Some(d as nat));
            }
            if k > 0 {
                let a = digits_value(t.take(k), hex).unwrap();
                assert(digits_value(t.take(k + 1), hex) == Some(
                    (if hex {
                        a * 16 + d
                    } else {
                        a * 10 + d
                    }) as nat,
                ));
                assert(capped((if hex { a * 16 + d } else { a * 10 + d }) as nat) == capped(
                    (if hex { capped(a) * 16 + d } else { capped(a) * 10 + d }) as nat,
                )) by (nonlinear_arith)
                    requires
                        d < 16,
                ;
            }
        }
        let ghost old_acc = acc;
        acc = if next > 0x10000 {
            0x10000
        } else {
            next
        };
        proof {
            let k = (i - from) as int;
            assert(acc == capped(next as nat));
            if k > 0 {
                let a = digits_value(t.take(k), hex).unwrap();
                assert(old_acc == capped(a));
                assert(next as nat == (if hex {
                    capped(a) * 16 + d
                } else {
                    capped(a) * 10 + d
                }) as nat);
            }
            assert(digits_value(t.take(k + 1), hex) matches Some(v) && acc == capped(v));
        }
        i = i + 1;
    }
    proof {
        assert(t.take(to - from) =~= t);
    }
    Some(acc)
}

/// A digit that is not one spoils every longer run of digits.
proof fn lemma_digits_invalid(t: Seq<char>, k: int, hex: bool)
    requires
        0 <= k < t.len(),
        digit_value(t[k], hex) is None,
    ensures
        digits_value(t, hex) is None,
    decreases t.len(),
{
    if k < t.len() - 1 {
        assert(t.drop_last()[k] == t[k]);
        lemma_digits_invalid(t.drop_last(), k, hex);
    }
}

/// Reads a line of a token file, as `0x284d date` or `10307 date`.
pub fn parse_token_line(line: &str) -> (r: Option<(u16, String)>)
    ensures
        match token_line(line@) {
            Some((v, name)) => r matches Some(p) && p.0 == v && p.1@ == name,
            None => r is None,
        },
{
    let n = line.unicode_len();
    let mut k: usize = 0;
    proof {
        assert(line@.skip(0) =~= line@);
    }
    while k < n && line.get_char(k) != ' '
        invariant
            k <= n == line@.len(),
            first_space(line@) == (match first_space(line@.skip(k as int)) {
                Some(j) => Some(j + k),
                None => None::<int>,
            }),
        decreases n - k,
    {
        proof {
            assert(line@.skip(k as int).skip(1) =~= line@.skip(k + 1));
            assert(line@.skip(k as int)[0] == line@[k as int]);
        }
        k = k + 1;
    }
    if k == n {
        proof {
            assert(line@.skip(k as int) =~= Seq::<char>::empty());
        }
        return None;
    }
    proof {
        assert(line@.skip(k as int)[0] == line@[k as int]);
        assert(line@.subrange(0, k as int) =~= line@.take(k as int));
    }
    let hex = k >= 2 && line.get_char(0) == '0' && line.get_char(1) == 'x';
    let value = if hex {
        proof {
            assert(line@.take(k as int).skip(2) =~= line@.subrange(2, k as int));
        }
        parse_digits(line, 2, k, true)
    } else {
        parse_digits(line, 0, k, false)
    };
    let v = match value {
        Some(v) => v,
        None => return None,
    };
    if v > 0xFFFF {
        return None;
    }
    let mut start: usize = k + 1;
    proof {
        assert(line@.subrange(k + 1, n as int) =~= line@.skip(k + 1));
    }
    while start < n && is_blank_char(line.get_char(start))
        invariant
            k + 1 <= start <= n == line@.len(),
            trim_start(line@.skip(k + 1)) == trim_start(line@.subrange(start as int, n as int)),
        decreases n - start,
    {
        proof {
            assert(line@.subrange(start as int, n as int).skip(1) =~= line@.subrange(start + 1, n as int));
        }
        start = start + 1;
    }
    proof {
        if start < n {
            assert(line@.subrange(start as int, n as int)[0] == line@[start as int]);
        }
    }
    let mut end: usize = n;
    while end > start && is_blank_char(line.get_char(end - 1))
        invariant
            start <= end <= n == line@.len(),
            trim_end(trim_start(line@.skip(k + 1))) == trim_end(line@.subrange(start as int, end as int)),
            trim_start(line@.skip(k + 1)) == trim_start(line@.subrange(start as int, n as int)),
        decreases end - start,
    {
        proof {
            assert(line@.subrange(start as int, end as int).drop_last() =~= line@.subrange(start as int, end - 1));
        }
        end = end - 1;
    }
    proof {
        if start < n {
            assert(line@.subrange(start as int, n as int)[0] == line@[start as int]);
        }
        if end > start {
            assert(line@.subrange(start as int, end as int).last() == line@[end - 1]);
        }
    }
    let name = String::from_str(line.substring_char(start, end));
    Some((v as u16, name))
}

fn is_blank_char(c: char) -> (b: bool)
    ensures
        b == is_blank(c),
{
    c == ' ' || c == '\t' || c == '\n' || c == '\r' || c == '\x0C'
}

} // verus!
