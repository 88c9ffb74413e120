use vstd::prelude::*;
use vstd::string::*;

verus! {

/// Most pairs the dashboard takes from its input.
pub const MAX_PAIRS: usize = 200;

/// `char::is_whitespace`: the characters with Unicode's White_Space property.
pub open spec fn is_ws(c: char) -> bool {
    ||| c == '\t' || c == '\n' || c == '\u{0B}' || c == '\u{0C}' || c == '\r' || c == ' '
    ||| c == '\u{85}' || c == '\u{A0}' || c == '\u{1680}'
    ||| ('\u{2000}' <= c && c <= '\u{200A}')
    ||| c == '\u{2028}' || c == '\u{2029}' || c == '\u{202F}' || c == '\u{205F}' || c == '\u{3000}'
}

/// ASCII uppercase of one character; other characters are kept.
pub open spec fn upper_ascii(c: char) -> char {
    if 'a' <= c && c <= 'z' {
        ((c as u32) - 32) as char
    } else {
        c
    }
}

/// The pieces of `s` between commas (one piece when there is no comma).
pub open spec fn split_commas(s: Seq<char>) -> Seq<Seq<char>>
    decreases s.len(),
{
    if s.len() == 0 {
        seq![Seq::empty()]
    } else {
        let p = split_commas(s.drop_last());
        if s.last() == ',' {
            p.push(Seq::empty())
        } else {
            p.update(p.len() - 1, p.last().push(s.last()))
        }
    }
}

pub open spec fn trim_start(s: Seq<char>) -> Seq<char>
    decreases s.len(),
{
    if s.len() > 0 && is_ws(s[0]) { trim_start(s.drop_first()) } else { s }
}

pub open spec fn trim_end(s: Seq<char>) -> Seq<char>
    decreases s.len(),
{
    if s.len() > 0 && is_ws(s.last()) { trim_end(s.drop_last()) } else { s }
}

/// `s` without leading and trailing whitespace.
pub open spec fn trimmed(s: Seq<char>) -> Seq<char> {
    trim_end(trim_start(s))
}

/// The trimmed pieces that are not empty, in order.
pub open spec fn tokens_of(pieces: Seq<Seq<char>>) -> Seq<Seq<char>>
    decreases pieces.len(),
{
    if pieces.len() == 0 {
        Seq::empty()
    } else {
        let t = tokens_of(pieces.drop_last());
        let x = trimmed(pieces.last());
        if x.len() > 0 { t.push(x) } else { t }
    }
}

/// The pair names written in `s`: comma-separated, trimmed, empty ones left out.
pub open spec fn pair_tokens(s: Seq<char>) -> Seq<Seq<char>> {
    tokens_of(split_commas(s))
}

/// `items` joined by `", "`.
pub open spec fn join_comma(items: Seq<Seq<char>>) -> Seq<char>
    decreases items.len(),
{
    if items.len() == 0 {
        Seq::empty()
    } else if items.len() == 1 {
        items[0]
    } else {
        join_comma(items.drop_last()) + seq![',', ' '] + items.last()
    }
}

/// At most the first `n` items.
pub open spec fn first_n<T>(s: Seq<T>, n: int) -> Seq<T> {
    if s.len() <= n { s } else { s.subrange(0, n) }
}

fn is_ws_exec(c: char) -> (r: bool)
    ensures
        r == is_ws(c),
{
    c == '\t' || c == '\n' || c == '\u{0B}' || c == '\u{0C}' || c == '\r' || c == ' ' || c == '\u{85}'
        || c == '\u{A0}' || c == '\u{1680}' || ('\u{2000}' <= c && c <= '\u{200A}') || c
        == '\u{2028}' || c == '\u{2029}' || c == '\u{202F}' || c == '\u{205F}' || c == '\u{3000}'
}

/// Relies on str::to_ascii_uppercase: 'a' to 'z' become 'A' to 'Z', every
/// other character is kept.
#[verifier::external_body]
fn ascii_upper(s: &str) -> (r: String)
    ensures
        r@ == s@.map_values(|c: char| upper_ascii(c)),
{
    s.to_ascii_uppercase()
}

/// The piece `s[lo..hi]` trimmed, as an owned string.
fn trim_piece(s: &str, lo: usize, hi: usize) -> (r: String)
    requires
        lo <= hi <= s@.len(),
    ensures
        r@ == trimmed(s@.subrange(lo as int, hi as int)),
{
    let mut a = lo;
    while a < hi && is_ws_exec(s.get_char(a))
        invariant
            lo <= a <= hi <= s@.len(),
            trim_start(s@.subrange(lo as int, hi as int)) == trim_start(s@.subrange(a as int, hi as int)),
        decreases hi - a,
    {
        proof {
            assert(s@.subrange(a as int, hi as int).drop_first() =~= s@.subrange(a + 1, hi as int));
            assert(s@.subrange(a as int, hi as int)[0] == s@[a as int]);
        }
        a = a + 1;
    }
    proof {
        if a < hi {
            assert(s@.subrange(a as int, hi as int)[0] == s@[a as int]);
        }
    }
    let mut b = hi;
    while b > a && is_ws_exec(s.get_char(b - 1))
        invariant
            lo <= a <= b <= hi <= s@.len(),
            trim_end(s@.subrange(a as int, hi as int)) == trim_end(s@.subrange(a as int, b as int)),
        decreases b - a,
    {
        proof {
            assert(s@.subrange(a as int, b as int).drop_last() =~= s@.subrange(a as int, b - 1));
            assert(s@.subrange(a as int, b as int).last() == s@[b - 1]);
        }
        b = b - 1;
    }
    proof {
        if b > a {
            assert(s@.subrange(a as int, b as int).last() == s@[b - 1]);
        }
    }
    s.substring_char(a, b).to_owned()
}

/// The pair names written in `input`.
fn tokens(input: &str) -> (r: Vec<String>)
    ensures
        crate::config::views(r@) == pair_tokens(input@),
{
    let n = input.unicode_len();
    let mut out: Vec<String> = Vec::new();
    let mut start: usize = 0;
    let mut i: usize = 0;
    let ghost mut done: Seq<Seq<char>> = Seq::empty();
    proof {
        assert(input@.subrange(0, 0) =~= Seq::<char>::empty());
        assert(input@.subrange(0, 0).len() == 0);
        assert(split_commas(input@.subrange(0, 0)) =~= done.push(input@.subrange(0, 0)));
    }
    while i < n
        invariant
            n == input@.len(),
            start <= i <= n,
            split_commas(input@.subrange(0, i as int)) == done.push(input@.subrange(start as int, i as int)),
            crate::config::views(out@) == tokens_of(done),
        decreases n - i,
    {
        let c = input.get_char(i);
        let ghost pre = input@.subrange(0, i as int);
        proof {
            assert(input@.subrange(0, i + 1).drop_last() =~= pre);
            assert(input@.subrange(0, i + 1).last() == c);
        }
        if c == ',' {
            let piece = trim_piece(input, start, i);
            let ghost before = out@;
            let ghost finished = input@.subrange(start as int, i as int);
            if piece.unicode_len() > 0 {
                out.push(piece);
                proof {
                    assert(crate::config::views(out@) =~= crate::config::views(before).push(
                        trimmed(finished),
                    ));
                }
            }
            proof {
                let nd = done.push(finished);
                assert(nd.drop_last() =~= done);
                done = nd;
                assert(input@.subrange(i + 1, i + 1) =~= Seq::<char>::empty());
                assert(split_commas(input@.subrange(0, i + 1)) =~= done.push(
                    input@.subrange(i + 1, i + 1),
                ));
            }
            start = i + 1;
        } else {
            proof {
                assert(input@.subrange(start as int, i + 1) =~= input@.subrange(start as int, i as int).push(c));
                assert(split_commas(input@.subrange(0, i + 1)) =~= done.push(
                    input@.subrange(start as int, i + 1),
                ));
            }
        }
        i = i + 1;
    }
    let piece = trim_piece(input, start, n);
    let ghost before = out@;
    let ghost last = input@.subrange(start as int, n as int);
    if piece.unicode_len() > 0 {
        out.push(piece);
        proof {
            assert(crate::config::views(out@) =~= crate::config::views(before).push(trimmed(last)));
        }
    }
    proof {
        assert(input@.subrange(0, n as int) =~= input@);
        assert(done.push(last).drop_last() =~= done);
    }
    out
}

/// Number of pair names written in `input`.
pub fn pair_count(input: &str) -> (r: usize)
    ensures
        r == pair_tokens(input@).len(),
{
    let t = tokens(input);
    t.len()
}

/// The first `MAX_PAIRS` pair names of `input`, joined by `", "`.
pub fn clamp_pairs_input(input: &str) -> (r: String)
    ensures
        r@ == join_comma(first_n(pair_tokens(input@), MAX_PAIRS as int)),
{
    let t = tokens(input);
    let n = if t.len() <= MAX_PAIRS { t.len() } else { MAX_PAIRS };
    let mut limited = String::new();
    let mut idx: usize = 0;
    let ghost all = crate::config::views(t@);
    while idx < n
        invariant
            n <= t@.len(),
            all == crate::config::views(t@),
            n == if all.len() <= MAX_PAIRS { all.len() } else { MAX_PAIRS as nat },
            idx <= n,
            limited@ == join_comma(all.subrange(0, idx as int)),
        decreases n - idx,
    {
        proof {
            reveal_strlit(", ");
            assert(all.subrange(0, idx + 1).drop_last() =~= all.subrange(0, idx as int));
            assert(all.subrange(0, idx + 1).last() == t@[idx as int]@);
        }
        if idx > 0 {
            limited.append(", ");
        }
        limited.append(t[idx].as_str());
        proof {
            if idx == 0 {
                assert(limited@ =~= join_comma(all.subrange(0, 1)));
            } else {
                assert(limited@ =~= join_comma(all.subrange(0, idx + 1)));
            }
        }
        idx = idx + 1;
    }
    proof {
        assert(all.subrange(0, n as int) =~= first_n(all, MAX_PAIRS as int));
    }
    limited
}

/// `input` in ASCII uppercase, cut to its first `MAX_PAIRS` pair names when it has more.
pub fn uppercase_and_limit_pairs(input: &str) -> (r: String)
    ensures
        ({
            let up = input@.map_values(|c: char| upper_ascii(c));
            r@ == if pair_tokens(up).len() <= MAX_PAIRS {
                up
            } else {
                join_comma(first_n(pair_tokens(up), MAX_PAIRS as int))
            }
        }),
{
    let uppercased = ascii_upper(input);
    if pair_count(uppercased.as_str()) <= MAX_PAIRS {
        return uppercased;
    }
    clamp_pairs_input(uppercased.as_str())
}

/// The configured pairs: the pair names of `input` in ASCII uppercase, at most `MAX_PAIRS`.
pub fn pairs_from_input(input: &str) -> (r: Vec<String>)
    ensures
        crate::config::views(r@) == first_n(
            pair_tokens(input@.map_values(|c: char| upper_ascii(c))),
            MAX_PAIRS as int,
        ),
{
    let uppercased = ascii_upper(input);
    let mut t = tokens(uppercased.as_str());
    if t.len() > MAX_PAIRS {
        t.truncate(MAX_PAIRS);
        proof {
            assert(crate::config::views(t@) =~= first_n(
                pair_tokens(input@.map_values(|c: char| upper_ascii(c))),
                MAX_PAIRS as int,
            ));
        }
    }
    t
}

} // verus!
