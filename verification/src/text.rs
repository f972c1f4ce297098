//! Character-level string helpers: splitting paths, prefixes, substrings and
//! decimal rendering of integers.
use vstd::prelude::*;
use vstd::string::*;

verus! {

/// The pieces of `s` between the separator `'.'`, as `str::split('.')` yields
/// them: there is always at least one piece, and a string without a dot is
/// its own single piece.
pub open spec fn split_dots(s: Seq<char>) -> Seq<Seq<char>>
    decreases s.len(),
{
    if s.len() == 0 {
        seq![Seq::<char>::empty()]
    } else if s[0] == '.' {
        seq![Seq::<char>::empty()] + split_dots(s.drop_first())
    } else {
        prepend_piece(seq![s[0]], split_dots(s.drop_first()))
    }
}

/// Prefixes the first piece of `pieces` with `p`.
pub open spec fn prepend_piece(p: Seq<char>, pieces: Seq<Seq<char>>) -> Seq<Seq<char>> {
    pieces.update(0, p + pieces[0])
}

pub proof fn lemma_split_dots_nonempty(s: Seq<char>)
    ensures
        split_dots(s).len() >= 1,
    decreases s.len(),
{
    if s.len() > 0 {
        lemma_split_dots_nonempty(s.drop_first());
    }
}

/// Lexicographic order of strings by code point, the order of `String`'s `Ord`.
pub open spec fn key_lt(a: Seq<char>, b: Seq<char>) -> bool
    decreases a.len(),
{
    if a.len() == 0 {
        b.len() > 0
    } else if b.len() == 0 {
        false
    } else if a[0] != b[0] {
        (a[0] as int) < (b[0] as int)
    } else {
        key_lt(a.drop_first(), b.drop_first())
    }
}

pub proof fn lemma_key_lt_irreflexive(a: Seq<char>)
    ensures
        !key_lt(a, a),
    decreases a.len(),
{
    if a.len() > 0 {
        lemma_key_lt_irreflexive(a.drop_first());
    }
}

pub proof fn lemma_key_lt_trichotomy(a: Seq<char>, b: Seq<char>)
    ensures
        a != b ==> (key_lt(a, b) || key_lt(b, a)),
        !(key_lt(a, b) && key_lt(b, a)),
    decreases a.len(),
{
    if a.len() > 0 && b.len() > 0 {
        lemma_key_lt_trichotomy(a.drop_first(), b.drop_first());
        if a[0] == b[0] && a != b {
            assert(a =~= seq![a[0]] + a.drop_first());
            assert(b =~= seq![b[0]] + b.drop_first());
        }
    } else if a.len() == 0 && b.len() == 0 {
        assert(a =~= b);
    }
}

pub proof fn lemma_key_lt_transitive(a: Seq<char>, b: Seq<char>, c: Seq<char>)
    requires
        key_lt(a, b),
        key_lt(b, c),
    ensures
        key_lt(a, c),
    decreases a.len(),
{
    if a.len() > 0 && b.len() > 0 && c.len() > 0 {
        if a[0] == b[0] && b[0] == c[0] {
            lemma_key_lt_transitive(a.drop_first(), b.drop_first(), c.drop_first());
        }
    }
}

/// The characters of `s`, one by one.
pub fn chars_of(s: &str) -> (v: Vec<char>)
    ensures
        v@ == s@,
{
    let n = s.unicode_len();
    let mut v: Vec<char> = Vec::new();
    let mut i: usize = 0;
    while i < n
        invariant
            n == s@.len(),
            i <= n,
            v@ == s@.take(i as int),
        decreases n - i,
    {
        let c = s.get_char(i);
        v.push(c);
        i = i + 1;
        assert(v@ =~= s@.take(i as int));
    }
    assert(v@ =~= s@);
    v
}

/// Whether `a` sorts strictly before `b`.
pub fn key_less(a: &str, b: &str) -> (r: bool)
    ensures
        r == key_lt(a@, b@),
{
    let ac = chars_of(a);
    let bc = chars_of(b);
    let mut i: usize = 0;
    assert(a@.skip(0) =~= a@);
    assert(b@.skip(0) =~= b@);
    while i < ac.len() && i < bc.len()
        invariant
            ac@ == a@,
            bc@ == b@,
            i <= ac@.len(),
            i <= bc@.len(),
            key_lt(a@, b@) == key_lt(a@.skip(i as int), b@.skip(i as int)),
        decreases ac.len() - i,
    {
        let x = ac[i];
        let y = bc[i];
        assert(a@.skip(i as int)[0] == x);
        assert(b@.skip(i as int)[0] == y);
        if x != y {
            return x < y;
        }
        assert(a@.skip(i as int).drop_first() =~= a@.skip(i + 1));
        assert(b@.skip(i as int).drop_first() =~= b@.skip(i + 1));
        i = i + 1;
    }
    ac.len() < bc.len()
}

/// Whether two strings are equal.
pub fn same_text(a: &str, b: &str) -> (r: bool)
    ensures
        r == (a@ == b@),
{
    let ac = chars_of(a);
    let bc = chars_of(b);
    if ac.len() != bc.len() {
        return false;
    }
    let mut i: usize = 0;
    while i < ac.len()
        invariant
            ac@ == a@,
            bc@ == b@,
            ac@.len() == bc@.len(),
            i <= ac@.len(),
            forall|j: int| 0 <= j < i ==> ac@[j] == bc@[j],
        decreases ac.len() - i,
    {
        if ac[i] != bc[i] {
            return false;
        }
        i = i + 1;
    }
    assert(ac@ =~= bc@);
    true
}

/// Whether `p` is a prefix of `s` (`str::starts_with`).
pub fn starts_with(s: &str, p: &str) -> (r: bool)
    ensures
        r == p@.is_prefix_of(s@),
{
    let sc = chars_of(s);
    let pc = chars_of(p);
    if pc.len() > sc.len() {
        return false;
    }
    let mut i: usize = 0;
    while i < pc.len()
        invariant
            sc@ == s@,
            pc@ == p@,
            pc@.len() <= sc@.len(),
            i <= pc@.len(),
            forall|j: int| 0 <= j < i ==> pc@[j] == sc@[j],
        decreases pc.len() - i,
    {
        if pc[i] != sc[i] {
            return false;
        }
        i = i + 1;
    }
    true
}

/// Whether `needle` occurs in `hay` as a contiguous piece (`str::contains`).
pub open spec fn occurs_in(hay: Seq<char>, needle: Seq<char>) -> bool {
    exists|i: int|
        0 <= i && i + needle.len() <= hay.len() && #[trigger] hay.subrange(i, i + needle.len())
            == needle
}

fn occurs_at(hc: &Vec<char>, nc: &Vec<char>, at: usize) -> (r: bool)
    requires
        at + nc@.len() <= hc@.len(),
    ensures
        r == (hc@.subrange(at as int, at + nc@.len()) == nc@),
{
    let hl = hc.len();
    let mut j: usize = 0;
    while j < nc.len()
        invariant
            hl == hc@.len(),
            at + nc@.len() <= hc@.len(),
            j <= nc@.len(),
            forall|k: int| 0 <= k < j ==> nc@[k] == hc@[at + k],
        decreases nc.len() - j,
    {
        if nc[j] != hc[at + j] {
            assert(hc@.subrange(at as int, at + nc@.len())[j as int] != nc@[j as int]);
            return false;
        }
        j = j + 1;
    }
    assert(hc@.subrange(at as int, at + nc@.len()) =~= nc@);
    true
}

/// Whether `needle` occurs in `hay`.
pub fn contains(hay: &str, needle: &str) -> (r: bool)
    ensures
        r == occurs_in(hay@, needle@),
{
    let hc = chars_of(hay);
    let nc = chars_of(needle);
    if nc.len() > hc.len() {
        return false;
    }
    let last = hc.len() - nc.len();
    let mut i: usize = 0;
    while i <= last
        invariant
            hc@ == hay@,
            nc@ == needle@,
            last == hc@.len() - nc@.len(),
            nc@.len() <= hc@.len(),
            forall|k: int| 0 <= k < i ==> #[trigger] hc@.subrange(k, k + nc@.len()) != nc@,
        decreases last + 1 - i,
    {
        if occurs_at(&hc, &nc, i) {
            return true;
        }
        if i == last {
            assert forall|k: int| 0 <= k && k + needle@.len() <= hay@.len() implies
                #[trigger] hay@.subrange(k, k + needle@.len()) != needle@ by {
                assert(k <= last);
            }
            return false;
        }
        i = i + 1;
    }
    false
}

/// Splits a path at its dots (`str::split('.')`).
pub fn split_dots_exec(s: &str) -> (pieces: Vec<String>)
    ensures
        pieces@.len() == split_dots(s@).len(),
        forall|i: int| 0 <= i < pieces@.len() ==> #[trigger] pieces@[i]@ == split_dots(s@)[i],
{
    let sc = chars_of(s);
    let n = sc.len();
    let mut pieces: Vec<String> = Vec::new();
    let mut start: usize = 0;
    let mut i: usize = 0;
    proof {
        lemma_split_dots_nonempty(s@);
        assert(s@.skip(0) =~= s@);
        assert(prepend_piece(s@.subrange(0, 0), split_dots(s@)) =~= split_dots(s@));
    }
    while i < n
        invariant
            sc@ == s@,
            n == s@.len(),
            start <= i <= n,
            split_dots(s@) =~= pieces@.map_values(|p: String| p@) + prepend_piece(
                s@.subrange(start as int, i as int),
                split_dots(s@.skip(i as int)),
            ),
        decreases n - i,
    {
        let ghost rest = s@.skip(i as int);
        let ghost next = s@.skip(i + 1);
        proof {
            assert(rest.drop_first() =~= next);
            assert(rest[0] == sc@[i as int]);
            lemma_split_dots_nonempty(next);
        }
        if sc[i] == '.' {
            let piece = s.substring_char(start, i).to_owned();
            let ghost old_pieces = pieces@.map_values(|p: String| p@);
            pieces.push(piece);
            proof {
                assert(split_dots(rest) == seq![Seq::<char>::empty()] + split_dots(next));
                assert(pieces@.map_values(|p: String| p@) =~= old_pieces.push(
                    s@.subrange(start as int, i as int),
                ));
                assert(s@.subrange(i + 1, i + 1) =~= Seq::<char>::empty());
                assert(prepend_piece(s@.subrange(i + 1, i + 1), split_dots(next)) =~= split_dots(
                    next,
                ));
                assert(prepend_piece(s@.subrange(start as int, i as int), split_dots(rest))
                    =~= seq![s@.subrange(start as int, i as int)] + split_dots(next));
            }
            start = i + 1;
        } else {
            proof {
                let x = split_dots(next);
                assert(split_dots(rest) == prepend_piece(seq![rest[0]], x));
                assert(prepend_piece(seq![rest[0]], x)[0] == seq![rest[0]] + x[0]);
                assert(s@.subrange(start as int, i as int) + (seq![rest[0]] + x[0])
                    =~= s@.subrange(start as int, i + 1) + x[0]);
                assert(s@.subrange(start as int, i as int) + seq![rest[0]] =~= s@.subrange(
                    start as int,
                    i + 1,
                ));
                assert(prepend_piece(s@.subrange(start as int, i as int), split_dots(rest))
                    =~= prepend_piece(s@.subrange(start as int, i + 1), split_dots(next)));
            }
        }
        i = i + 1;
    }
    let piece = s.substring_char(start, n).to_owned();
    let ghost old_pieces = pieces@.map_values(|p: String| p@);
    pieces.push(piece);
    proof {
        assert(s@.skip(n as int) =~= Seq::<char>::empty());
        assert(prepend_piece(s@.subrange(start as int, n as int), split_dots(s@.skip(n as int)))
            =~= seq![s@.subrange(start as int, n as int)]);
        assert(pieces@.map_values(|p: String| p@) =~= old_pieces.push(
            s@.subrange(start as int, n as int),
        ));
        assert forall|i: int| 0 <= i < pieces@.len() implies #[trigger] pieces@[i]@ == split_dots(
            s@,
        )[i] by {
            assert(pieces@.map_values(|p: String| p@)[i] == pieces@[i]@);
        }
    }
    pieces
}

/// The decimal digits of `n`, most significant first.
pub open spec fn decimal(n: nat) -> Seq<char>
    decreases n,
{
    if n < 10 {
        seq![digit_char(n)]
    } else {
        decimal(n / 10).push(digit_char(n % 10))
    }
}

pub open spec fn digit_char(d: nat) -> char {
    if d == 0 {
        '0'
    } else if d == 1 {
        '1'
    } else if d == 2 {
        '2'
    } else if d == 3 {
        '3'
    } else if d == 4 {
        '4'
    } else if d == 5 {
        '5'
    } else if d == 6 {
        '6'
    } else if d == 7 {
        '7'
    } else if d == 8 {
        '8'
    } else {
        '9'
    }
}

/// An integer written in decimal, with a leading `-` when it is negative, as
/// `to_string` and `format!` write it.
pub open spec fn int_text(n: int) -> Seq<char> {
    if n < 0 {
        seq!['-'] + decimal((-n) as nat)
    } else {
        decimal(n as nat)
    }
}

fn digit_str(d: u64) -> (s: &'static str)
    requires
        d < 10,
    ensures
        s@ == seq![digit_char(d as nat)],
{
    proof {
        reveal_strlit("0");
        reveal_strlit("1");
        reveal_strlit("2");
        reveal_strlit("3");
        reveal_strlit("4");
        reveal_strlit("5");
        reveal_strlit("6");
        reveal_strlit("7");
        reveal_strlit("8");
        reveal_strlit("9");
    }
    if d == 0 {
        "0"
    } else if d == 1 {
        "1"
    } else if d == 2 {
        "2"
    } else if d == 3 {
        "3"
    } else if d == 4 {
        "4"
    } else if d == 5 {
        "5"
    } else if d == 6 {
        "6"
    } else if d == 7 {
        "7"
    } else if d == 8 {
        "8"
    } else {
        "9"
    }
}

/// `n` in decimal.
pub fn u64_text(n: u64) -> (s: String)
    ensures
        s@ == decimal(n as nat),
    decreases n,
{
    if n < 10 {
        String::from_str(digit_str(n))
    } else {
        let mut s = u64_text(n / 10);
        s.append(digit_str(n % 10));
        s
    }
}

/// `n` in decimal, with a leading `-` when negative.
pub fn i64_text(n: i64) -> (s: String)
    ensures
        s@ == int_text(n as int),
{
    if n < 0 {
        let m: u64 = (0i128 - (n as i128)) as u64;
        proof {
            reveal_strlit("-");
        }
        let mut s = String::from_str("-");
        let t = u64_text(m);
        s.append(t.as_str());
        s
    } else {
        u64_text(n as u64)
    }
}

/// `n` in decimal.
pub fn usize_text(n: usize) -> (s: String)
    ensures
        s@ == decimal(n as nat),
{
    u64_text(n as u64)
}

} // verus!
