//! Laying out debug text: each bracketed list on lines of its own,
//! indented by its depth.
use vstd::prelude::*;

verus! {

/// Whether a character is white space: the characters with the Unicode
/// White_Space property.
pub open spec fn is_white_space(c: char) -> bool {
    let u = c as u32;
    ||| 0x09 <= u <= 0x0d
    ||| u == 0x20
    ||| u == 0x85
    ||| u == 0xa0
    ||| u == 0x1680
    ||| 0x2000 <= u <= 0x200a
    ||| u == 0x2028
    ||| u == 0x2029
    ||| u == 0x202f
    ||| u == 0x205f
    ||| u == 0x3000
}

/// Whether a character is white space.
pub fn char_is_white_space(c: char) -> (res: bool)
    ensures
        res == is_white_space(c),
{
    let u = c as u32;
    (0x09 <= u && u <= 0x0d) || u == 0x20 || u == 0x85 || u == 0xa0 || u == 0x1680 || (0x2000 <= u
        && u <= 0x200a) || u == 0x2028 || u == 0x2029 || u == 0x202f || u == 0x205f || u == 0x3000
}

/// `s` from its first character that is not white space.
pub open spec fn skip_white(s: Seq<char>) -> Seq<char>
    decreases s.len(),
{
    if s.len() > 0 && is_white_space(s[0]) {
        skip_white(s.drop_first())
    } else {
        s
    }
}

/// The indentation of depth `d`: four spaces a level.
pub open spec fn indent(d: nat) -> Seq<char>
    decreases d,
{
    if d == 0 {
        Seq::empty()
    } else {
        indent((d - 1) as nat) + seq![' ', ' ', ' ', ' ']
    }
}

/// `p`, then what follows, where something does.
pub open spec fn then(p: Seq<char>, rest: Option<Seq<char>>) -> Option<Seq<char>> {
    match rest {
        Some(r) => Some(p + r),
        None => None,
    }
}

/// The layout of the text `s` at depth `d`, or `None` where a list opens
/// with nothing but white space after it, a list closes that was not opened,
/// or `"),"` after a list ends the text with nothing but white space.
pub open spec fn pretty_at(s: Seq<char>, d: nat) -> Option<Seq<char>>
    decreases s.len(), 0nat,
{
    if s.len() == 0 {
        Some(Seq::empty())
    } else {
        let c = s[0];
        let r = s.drop_first();
        if c == '[' {
            let r2 = skip_white(r);
            proof {
                lemma_skip_white_len(r);
            }
            if r2.len() == 0 {
                None
            } else if r2[0] == ']' {
                then(seq!['[', ']'], pretty_closed(r2.drop_first(), d))
            } else {
                then(seq!['[', '\n'] + indent(d + 1), pretty_at(r2, d + 1))
            }
        } else if c == ']' {
            if d == 0 {
                None
            } else {
                then(seq!['\n'] + indent((d - 1) as nat) + seq![']'], pretty_closed(r, (d - 1) as nat))
            }
        } else if c == '\n' {
            then(seq!['\n'] + indent(d), pretty_at(r, d))
        } else {
            then(seq![c], pretty_at(r, d))
        }
    }
}

/// The layout of the text `s` that follows the end of a list at depth `d`:
/// after `")"` and `","` the next item starts a line of its own.
pub open spec fn pretty_closed(s: Seq<char>, d: nat) -> Option<Seq<char>>
    decreases s.len(), 1nat,
{
    if s.len() > 0 && s[0] == ')' {
        let r1 = s.drop_first();
        if r1.len() > 0 && r1[0] == ',' {
            let r2 = skip_white(r1.drop_first());
            proof {
                lemma_skip_white_len(r1.drop_first());
            }
            if r2.len() == 0 {
                None
            } else {
                then(seq![')', ',', '\n'] + indent(d), pretty_at(r2, d))
            }
        } else {
            then(seq![')'], pretty_at(r1, d))
        }
    } else {
        pretty_at(s, d)
    }
}

pub proof fn lemma_skip_white_len(s: Seq<char>)
    ensures
        skip_white(s).len() <= s.len(),
        exists|k: int| 0 <= k <= s.len() && skip_white(s) == s.skip(k),
    decreases s.len(),
{
    if s.len() > 0 && is_white_space(s[0]) {
        lemma_skip_white_len(s.drop_first());
        let k = choose|k: int| 0 <= k <= s.drop_first().len() && skip_white(s.drop_first()) == s.drop_first().skip(k);
        assert(s.drop_first().skip(k) =~= s.skip(k + 1));
    } else {
        assert(s.skip(0) =~= s);
    }
}

proof fn lemma_indent_len(d: nat)
    ensures
        indent(d).len() == 4 * d,
    decreases d,
{
    if d > 0 {
        lemma_indent_len((d - 1) as nat);
    }
}

/// Appends the indentation of depth `d`.
fn push_indent(out: &mut Vec<char>, d: usize)
    ensures
        final(out)@ == old(out)@ + indent(d as nat),
{
    let mut i: usize = 0;
    while i < d
        invariant
            i <= d,
            out@ == old(out)@ + indent(i as nat),
        decreases d - i,
    {
        proof {
            assert(old(out)@ + indent((i + 1) as nat) =~= old(out)@ + indent(i as nat) + seq![' ', ' ', ' ', ' ']);
        }
        out.push(' ');
        out.push(' ');
        out.push(' ');
        out.push(' ');
        i = i + 1;
        proof {
            assert(out@ =~= old(out)@ + indent(i as nat));
        }
    }
}

/// The characters of a string.
fn chars_of(input: &str) -> (res: Vec<char>)
    ensures
        res@ == input@,
{
    let n = input.unicode_len();
    let mut res: Vec<char> = Vec::new();
    for i in 0..n
        invariant
            n == input@.len(),
            res@ == input@.take(i as int),
    {
        res.push(input.get_char(i));
        proof {
            assert(input@.take(i + 1) =~= input@.take(i as int).push(input@[i as int]));
        }
    }
    proof {
        assert(input@.take(n as int) =~= input@);
    }
    res
}

/// A string of the characters of `v`.
#[verifier::external_body]
pub(crate) fn string_of(v: &Vec<char>) -> (res: String)
    ensures
        res@ == v@,
{
    v.iter().collect()
}

/// The first position from `i` on that does not hold white space.
fn skip_white_from(s: &Vec<char>, i: usize) -> (j: usize)
    requires
        i <= s@.len(),
    ensures
        i <= j <= s@.len(),
        s@.skip(j as int) == skip_white(s@.skip(i as int)),
{
    let mut j = i;
    while j < s.len() && char_is_white_space(s[j])
        invariant
            i <= j <= s@.len(),
            skip_white(s@.skip(j as int)) == skip_white(s@.skip(i as int)),
        decreases s@.len() - j,
    {
        proof {
            assert(s@.skip(j as int)[0] == s@[j as int]);
            assert(s@.skip(j as int).drop_first() =~= s@.skip(j + 1));
        }
        j = j + 1;
    }
    proof {
        if j < s@.len() {
            assert(s@.skip(j as int)[0] == s@[j as int]);
        } else {
            assert(s@.skip(j as int) =~= Seq::<char>::empty());
        }
    }
    j
}

/// One step of the layout at `s[i]`.
proof fn lemma_pretty_step(s: Seq<char>, i: int, d: nat)
    requires
        0 <= i < s.len(),
    ensures
        pretty_at(s.skip(i), d) == ({
            let c = s[i];
            let r = s.skip(i + 1);
            if c == '[' {
                let r2 = skip_white(r);
                if r2.len() == 0 {
                    None
                } else if r2[0] == ']' {
                    then(seq!['[', ']'], pretty_closed(r2.drop_first(), d))
                } else {
                    then(seq!['[', '\n'] + indent(d + 1), pretty_at(r2, d + 1))
                }
            } else if c == ']' {
                if d == 0 {
                    None
                } else {
                    then(seq!['\n'] + indent((d - 1) as nat) + seq![']'], pretty_closed(r, (d - 1) as nat))
                }
            } else if c == '\n' {
                then(seq!['\n'] + indent(d), pretty_at(r, d))
            } else {
                then(seq![c], pretty_at(r, d))
            }
        }),
{
    assert(s.skip(i)[0] == s[i]);
    assert(s.skip(i).drop_first() =~= s.skip(i + 1));
}

/// The layout after the end of a list, at `s[i]`.
proof fn lemma_closed_step(s: Seq<char>, i: int, d: nat)
    requires
        0 <= i <= s.len(),
    ensures
        pretty_closed(s.skip(i), d) == if i < s.len() && s[i] == ')' {
            if i + 1 < s.len() && s[i + 1] == ',' {
                let r2 = skip_white(s.skip(i + 2));
                if r2.len() == 0 {
                    None
                } else {
                    then(seq![')', ',', '\n'] + indent(d), pretty_at(r2, d))
                }
            } else {
                then(seq![')'], pretty_at(s.skip(i + 1), d))
            }
        } else {
            pretty_at(s.skip(i), d)
        },
{
    if i < s.len() {
        assert(s.skip(i)[0] == s[i]);
        assert(s.skip(i).drop_first() =~= s.skip(i + 1));
        if i + 1 < s.len() {
            assert(s.skip(i + 1)[0] == s[i + 1]);
            assert(s.skip(i + 1).drop_first() =~= s.skip(i + 2));
        }
    }
}

/// `then` of a prefix and a longer prefix.
proof fn lemma_then_cat(p: Seq<char>, q: Seq<char>, rest: Option<Seq<char>>)
    ensures
        then(p, then(q, rest)) == then(p + q, rest),
{
    match rest {
        Some(r) => assert(p + (q + r) =~= p + q + r),
        None => {},
    }
}

/// Lays out debug text, or gives `None` where a list opens with nothing
/// but white space after it, a list closes that was not opened, or `"),"`
/// after a list ends the text with nothing but white space.
#[verifier::rlimit(80)]
pub fn try_debug_pretty(input: &str) -> (res: Option<String>)
    ensures
        res is None <==> pretty_at(input@, 0) is None,
        res matches Some(t) ==> pretty_at(input@, 0) == Some(t@),
{
    let s = chars_of(input);
    let n = s.len();
    let ghost target = pretty_at(s@, 0);
    let mut out: Vec<char> = Vec::new();
    let mut i: usize = 0;
    let mut d: usize = 0;
    let mut closing = false;
    proof {
        assert(s@.skip(0) =~= s@);
        assert(Seq::<char>::empty() + s@ =~= s@);
        match target {
            Some(t) => assert(Seq::<char>::empty() + t =~= t),
            None => {},
        }
    }
    while i < n
        invariant
            s@ == input@,
            n == s@.len(),
            i <= n,
            d <= i,
            target == pretty_at(s@, 0),
            target == then(
                out@,
                if closing {
                    pretty_closed(s@.skip(i as int), d as nat)
                } else {
                    pretty_at(s@.skip(i as int), d as nat)
                },
            ),
        decreases 2 * (n - i) + if closing { 1int } else { 0int },
    {
        if closing {
            closing = false;
            let ghost before = out@;
            let ghost rest = s@.skip(i as int);
            proof {
                lemma_closed_step(s@, i as int, d as nat);
            }
            if s[i] == ')' {
                proof {
                    assert(rest[0] == s@[i as int]);
                    assert(rest.drop_first() =~= s@.skip(i + 1));
                }
                out.push(')');
                i = i + 1;
                if i < n && s[i] == ',' {
                    proof {
                        assert(s@.skip(i as int)[0] == s@[i as int]);
                        assert(s@.skip(i as int).drop_first() =~= s@.skip(i + 1));
                    }
                    out.push(',');
                    i = i + 1;
                    let j = skip_white_from(&s, i);
                    if j == n {
                        proof {
                            assert(s@.skip(j as int) =~= Seq::<char>::empty());
                        }
                        return None;
                    }
                    i = j;
                    out.push('\n');
                    push_indent(&mut out, d);
                    proof {
                        lemma_then_cat(before, seq![')', ',', '\n'] + indent(d as nat), pretty_at(s@.skip(i as int), d as nat));
                        assert(before + (seq![')', ',', '\n'] + indent(d as nat)) =~= out@);
                    }
                } else {
                    proof {
                        if i < n {
                            assert(s@.skip(i as int)[0] == s@[i as int]);
                        }
                        lemma_then_cat(before, seq![')'], pretty_at(s@.skip(i as int), d as nat));
                        assert(before + seq![')'] =~= out@);
                    }
                }
            } else {
                proof {
                    assert(rest[0] == s@[i as int]);
                }
            }
        } else {
            let ghost before = out@;
            proof {
                lemma_pretty_step(s@, i as int, d as nat);
            }
            let c = s[i];
            i = i + 1;
            if c == '[' {
                let j = skip_white_from(&s, i);
                if j == n {
                    proof {
                        assert(s@.skip(j as int) =~= Seq::<char>::empty());
                    }
                    return None;
                }
                proof {
                    assert(s@.skip(j as int)[0] == s@[j as int]);
                    assert(s@.skip(j as int).drop_first() =~= s@.skip(j + 1));
                }
                if s[j] == ']' {
                    out.push('[');
                    out.push(']');
                    i = j + 1;
                    closing = true;
                    proof {
                        lemma_then_cat(before, seq!['[', ']'], pretty_closed(s@.skip(i as int), d as nat));
                        assert(before + seq!['[', ']'] =~= out@);
                    }
                } else {
                    out.push('[');
                    out.push('\n');
                    d = d + 1;
                    push_indent(&mut out, d);
                    i = j;
                    proof {
                        lemma_then_cat(before, seq!['[', '\n'] + indent(d as nat), pretty_at(s@.skip(i as int), d as nat));
                        assert(before + (seq!['[', '\n'] + indent(d as nat)) =~= out@);
                    }
                }
            } else if c == ']' {
                if d == 0 {
                    return None;
                }
                d = d - 1;
                out.push('\n');
                push_indent(&mut out, d);
                out.push(']');
                closing = true;
                proof {
                    lemma_then_cat(before, seq!['\n'] + indent(d as nat) + seq![']'], pretty_closed(s@.skip(i as int), d as nat));
                    assert(before + (seq!['\n'] + indent(d as nat) + seq![']']) =~= out@);
                }
            } else if c == '\n' {
                out.push('\n');
                push_indent(&mut out, d);
                proof {
                    lemma_then_cat(before, seq!['\n'] + indent(d as nat), pretty_at(s@.skip(i as int), d as nat));
                    assert(before + (seq!['\n'] + indent(d as nat)) =~= out@);
                }
            } else {
                out.push(c);
                proof {
                    lemma_then_cat(before, seq![c], pretty_at(s@.skip(i as int), d as nat));
                    assert(before + seq![c] =~= out@);
                }
            }
        }
    }
    proof {
        assert(s@.skip(i as int) =~= Seq::<char>::empty());
        assert(out@ + Seq::<char>::empty() =~= out@);
    }
    Some(string_of(&out))
}

/// Lays out debug text: each bracketed list on lines of its own, its items
/// indented four spaces a level and, after `"),"`, on lines of their own.
pub fn debug_pretty(input: &str) -> (res: String)
    requires
        pretty_at(input@, 0) is Some,
    ensures
        pretty_at(input@, 0) == Some(res@),
{
    match try_debug_pretty(input) {
        Some(t) => t,
        None => {
            proof {
                assert(false);
            }
            String::new()
        },
    }
}

} // verus!
