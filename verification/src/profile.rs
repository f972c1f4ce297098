//! What the service shows of accounts and boulders to others: public
//! profiles and boulder statistics.
use vstd::prelude::*;
use vstd::string::*;
use crate::model::{Account, Boulder};

verus! {

/// A character with the Unicode property `White_Space` (`char::is_whitespace`).
pub open spec fn is_white_space(c: char) -> bool {
    ('\u{9}' <= c && c <= '\u{d}') || c == ' ' || c == '\u{85}' || c == '\u{a0}' || c == '\u{1680}'
        || ('\u{2000}' <= c && c <= '\u{200a}') || c == '\u{2028}' || c == '\u{2029}' || c
        == '\u{202f}' || c == '\u{205f}' || c == '\u{3000}'
}

pub open spec fn trim_start(s: Seq<char>) -> Seq<char>
    decreases s.len(),
{
    if s.len() > 0 && is_white_space(s[0]) {
        trim_start(s.drop_first())
    } else {
        s
    }
}

pub open spec fn trim_end(s: Seq<char>) -> Seq<char>
    decreases s.len(),
{
    if s.len() > 0 && is_white_space(s.last()) {
        trim_end(s.drop_last())
    } else {
        s
    }
}

/// `s` without leading and trailing white space (`str::trim`).
pub open spec fn trimmed(s: Seq<char>) -> Seq<char> {
    trim_end(trim_start(s))
}

fn white_space(c: char) -> (r: bool)
    ensures
        r == is_white_space(c),
{
    ('\u{9}' <= c && c <= '\u{d}') || c == ' ' || c == '\u{85}' || c == '\u{a0}' || c == '\u{1680}'
        || ('\u{2000}' <= c && c <= '\u{200a}') || c == '\u{2028}' || c == '\u{2029}' || c
        == '\u{202f}' || c == '\u{205f}' || c == '\u{3000}'
}

/// `s` without leading and trailing white space.
pub fn trim(s: &str) -> (r: String)
    ensures
        r@ == trimmed(s@),
{
    let cs = crate::text::chars_of(s);
    let n = cs.len();
    let mut lo: usize = 0;
    assert(s@.skip(0) =~= s@);
    while lo < n && white_space(cs[lo])
        invariant
            cs@ == s@,
            n == s@.len(),
            lo <= n,
            trim_start(s@) == trim_start(s@.skip(lo as int)),
        decreases n - lo,
    {
        assert(s@.skip(lo as int).drop_first() =~= s@.skip(lo + 1));
        lo = lo + 1;
    }
    let ghost front = s@.skip(lo as int);
    assert(trim_start(s@) == front);
    let mut hi: usize = n;
    assert(front.take(front.len() as int) =~= front);
    while hi > lo && white_space(cs[hi - 1])
        invariant
            cs@ == s@,
            n == s@.len(),
            lo <= hi <= n,
            front == s@.skip(lo as int),
            trim_end(front) == trim_end(s@.subrange(lo as int, hi as int)),
        decreases hi - lo,
    {
        let ghost cur = s@.subrange(lo as int, hi as int);
        assert(cur.last() == cs@[hi - 1]);
        assert(cur.drop_last() =~= s@.subrange(lo as int, hi - 1));
        hi = hi - 1;
    }
    proof {
        if hi > lo {
            assert(s@.subrange(lo as int, hi as int).last() == cs@[hi - 1]);
        } else {
            assert(s@.subrange(lo as int, hi as int).len() == 0);
        }
        assert(front =~= s@.subrange(lo as int, n as int));
    }
    s.substring_char(lo, hi).to_owned()
}

/// The SHA-256 digest of `data`.
pub uninterp spec fn sha256(data: Seq<u8>) -> Seq<u8>;

/// The SHA-256 digest of `data` (`sha2::Sha256::digest`), 32 bytes long.
#[verifier::external_body]
fn sha256_digest(data: &[u8]) -> (d: Vec<u8>)
    ensures
        d@ == sha256(data@),
        d@.len() == 32,
{
    <sha2::Sha256 as sha2::Digest>::digest(data).to_vec()
}

pub open spec fn hex_digit(d: int) -> char {
    "0123456789abcdef"@[d]
}

/// The bytes in lowercase hexadecimal, two digits per byte.
pub open spec fn lower_hex(bytes: Seq<u8>) -> Seq<char>
    decreases bytes.len(),
{
    if bytes.len() == 0 {
        Seq::empty()
    } else {
        lower_hex(bytes.drop_last()) + seq![
            hex_digit(bytes.last() as int / 16),
            hex_digit(bytes.last() as int % 16),
        ]
    }
}

/// The bytes in lowercase hexadecimal.
pub fn to_lower_hex(bytes: &Vec<u8>) -> (s: String)
    ensures
        s@ == lower_hex(bytes@),
{
    let digits = "0123456789abcdef";
    proof {
        reveal_strlit("0123456789abcdef");
    }
    assert(digits@.len() == 16);
    assert(digits.is_ascii());
    let mut s = String::new();
    let mut i: usize = 0;
    while i < bytes.len()
        invariant
            digits@ == "0123456789abcdef"@,
            digits@.len() == 16,
            digits.is_ascii(),
            i <= bytes@.len(),
            s@ == lower_hex(bytes@.take(i as int)),
        decreases bytes.len() - i,
    {
        let b = bytes[i];
        let hi = (b / 16) as usize;
        let lo = (b % 16) as usize;
        let ghost before = s@;
        s.append(digits.substring_ascii(hi, hi + 1));
        s.append(digits.substring_ascii(lo, lo + 1));
        proof {
            let t = bytes@.take(i + 1);
            assert(t.drop_last() =~= bytes@.take(i as int));
            assert(t.last() == b);
            assert(s@ =~= before + seq![hex_digit(b as int / 16), hex_digit(b as int % 16)]);
        }
        i = i + 1;
    }
    assert(bytes@.take(bytes@.len() as int) =~= bytes@);
    s
}

/// What anyone may see of an account.
pub struct PublicProfile {
    pub name: String,
    pub avatar: Option<String>,
}

/// The Gravatar address of the picture for an email address.
pub open spec fn avatar_url(email: Seq<char>) -> Seq<char> {
    "https://gravatar.com/avatar/"@ + lower_hex(sha256(vstd::utf8::encode_utf8(trimmed(email))))
}

/// The public profile of an account: its name (empty if it has none) and the
/// Gravatar picture of its email address.
pub fn public_profile(account: &Account) -> (p: PublicProfile)
    ensures
        p.name@ == match account.name {
            Some(n) => n@,
            None => Seq::<char>::empty(),
        },
        p.avatar matches Some(a) && a@ == avatar_url(account.email@),
{
    let name = match &account.name {
        Some(n) => n.clone(),
        None => String::new(),
    };
    let email = trim(account.email.as_str());
    let digest = sha256_digest(email.as_str().as_bytes());
    let mut avatar = String::from_str("https://gravatar.com/avatar/");
    avatar.append(to_lower_hex(&digest).as_str());
    PublicProfile { name, avatar: Some(avatar) }
}

/// The calendar day (`YYYY-MM-DD`, in UTC) of a time given in milliseconds
/// since the Unix epoch; `None` when the time is out of range.
pub uninterp spec fn calendar_day_of(millis: i64) -> Option<Seq<char>>;

/// The day of `millis` (`chrono::DateTime::from_timestamp_millis`, written
/// with `format("%Y-%m-%d")`).
#[verifier::external_body]
fn calendar_day(millis: i64) -> (d: Option<String>)
    ensures
        match d {
            Some(s) => calendar_day_of(millis) == Some(s@),
            None => calendar_day_of(millis) == None::<Seq<char>>,
        },
{
    match chrono::DateTime::from_timestamp_millis(millis) {
        Some(t) => Some(t.format("%Y-%m-%d").to_string()),
        None => None,
    }
}

/// Today's date in UTC (`chrono::Utc::now`, written with `format("%Y-%m-%d")`):
/// the day of some time that chrono represents. Which day it is depends on the
/// clock and is not stated.
#[verifier::external_body]
fn today() -> (d: String)
    ensures
        exists|m: i64| calendar_day_of(m) == Some(d@),
{
    chrono::Utc::now().format("%Y-%m-%d").to_string()
}

/// The day of a time in milliseconds since the Unix epoch, or today's date
/// when the time is out of range.
pub fn transform_date(epoch_millis: usize) -> (d: String)
    ensures
        calendar_day_of(epoch_millis as i64) matches Some(day) ==> d@ == day,
        exists|m: i64| calendar_day_of(m) == Some(d@),
{
    match calendar_day(epoch_millis as i64) {
        Some(d) => d,
        None => today(),
    }
}

/// What the statistics show of a boulder.
pub struct BoulderStat {
    pub set_on: String,
    pub removed_on: Option<String>,
    pub setters: Vec<String>,
    pub sector: String,
    pub grade: String,
}

/// The statistics of a boulder: its set and removal days, setters, sector
/// and grade. A boulder that is not removed has no removal day.
pub fn boulder_stat(b: Boulder) -> (s: BoulderStat)
    ensures
        calendar_day_of(b.set_date as i64) matches Some(day) ==> s.set_on@ == day,
        exists|m: i64| calendar_day_of(m) == Some(s.set_on@),
        s.removed_on matches Some(r) ==> exists|m: i64| calendar_day_of(m) == Some(r@),
        s.removed_on is None <==> b.removed == 0,
        b.removed != 0 && calendar_day_of(b.removed as i64) is Some ==> s.removed_on->0@
            == calendar_day_of(b.removed as i64)->0,
        s.setters == b.setter,
        s.sector == b.sector,
        s.grade == b.grade,
{
    let set_on = transform_date(b.set_date);
    let removed_on = if b.removed == 0 {
        None
    } else {
        Some(transform_date(b.removed))
    };
    BoulderStat { set_on, removed_on, setters: b.setter, sector: b.sector, grade: b.grade }
}

} // verus!
