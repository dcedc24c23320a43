//! Moves that were written out as text are read back as they were.

use vstd::prelude::*;
use vstd::string::StringSliceAdditionalSpecFns;
use vstd::utf8::{is_ascii_chars, is_ascii_chars_encode_utf8};
use crate::cube::Move;
use crate::cube::parser::{is_space, letter, parse_at, parsed, suffix};

verus! {

/// The characters as bytes.
pub open spec fn ascii(text: Seq<char>) -> Seq<u8> {
    Seq::new(text.len(), |i: int| text[i] as u8)
}

/// The moves written out one after the other, with as many spaces before
/// each as `gaps` says.
pub open spec fn laid_out(ms: Seq<Move>, gaps: Seq<nat>) -> Seq<char>
    decreases ms.len(),
{
    if ms.len() == 0 {
        Seq::empty()
    } else {
        Seq::new(gaps[0], |i: int| ' ') + ms[0].spec_display() + laid_out(
            ms.skip(1),
            gaps.skip(1),
        )
    }
}

/// The moves that can be both written and read: the supported ones, with
/// an amount from 1 to 3.
pub open spec fn writable(ms: Seq<Move>) -> bool {
    forall|i: int|
        0 <= i < ms.len() ==> (#[trigger] ms[i]).supported() && 1 <= ms[i].spec_amount() <= 3
}

/// What is read from a place on depends on what stands from there on only.
pub proof fn lemma_parse_shift(pre: Seq<u8>, s: Seq<u8>, i: int, mark: int)
    requires
        0 <= i <= s.len(),
    ensures
        parse_at(pre + s, pre.len() + i, pre.len() + mark).0 == parse_at(s, i, mark).0,
        parse_at(pre + s, pre.len() + i, pre.len() + mark).1 == pre.len() + parse_at(
            s,
            i,
            mark,
        ).1,
    decreases s.len() - i,
{
    let t = pre + s;
    if i < s.len() {
        assert(t[pre.len() + i] == s[i]);
        if is_space(s[i]) {
            lemma_parse_shift(pre, s, i + 1, mark);
        } else if letter(s[i]) is Some {
            if i + 1 < s.len() {
                assert(t[pre.len() + i + 1] == s[i + 1]);
            }
            let after = suffix(s, i + 1).1;
            assert(suffix(t, pre.len() + i + 1) == (suffix(s, i + 1).0, pre.len() + after));
            lemma_parse_shift(pre, s, after, after);
        }
    }
}

/// Written moves begin with a letter, or there are none: never with a mark
/// for the amount of the move before.
proof fn lemma_laid_out_start(ms: Seq<Move>, gaps: Seq<nat>)
    requires
        writable(ms),
        gaps.len() == ms.len(),
    ensures
        is_ascii_chars(laid_out(ms, gaps)),
        laid_out(ms, gaps).len() > 0 ==> laid_out(ms, gaps)[0] != '\'' && laid_out(ms, gaps)[0]
            != '2',
    decreases ms.len(),
{
    if ms.len() > 0 {
        assert(ms[0].supported() && 1 <= ms[0].spec_amount() <= 3);
        assert forall|i: int| 0 <= i < ms.skip(1).len() implies (#[trigger] ms.skip(1)[i]).supported()
            && 1 <= ms.skip(1)[i].spec_amount() <= 3 by {
            assert(ms.skip(1)[i] == ms[i + 1]);
        }
        lemma_laid_out_start(ms.skip(1), gaps.skip(1));
    }
}

/// Spaces before a move are passed over.
proof fn lemma_parse_spaces(s: Seq<u8>, k: nat, i: int)
    requires
        0 <= i <= k <= s.len(),
        forall|j: int| 0 <= j < k ==> s[j] == 32,
    ensures
        parse_at(s, i, 0) == parse_at(s, k as int, 0),
    decreases k - i,
{
    if i < k {
        lemma_parse_spaces(s, k, i + 1);
    }
}

/// Move parser round trip, on bytes: reading the moves that were written
/// out, with any number of spaces before each, gives the moves.
pub proof fn lemma_parse_laid_out(ms: Seq<Move>, gaps: Seq<nat>)
    requires
        writable(ms),
        gaps.len() == ms.len(),
    ensures
        parsed(ascii(laid_out(ms, gaps))) == (ms, ascii(laid_out(ms, gaps)).len() as int),
    decreases ms.len(),
{
    let s = ascii(laid_out(ms, gaps));
    if ms.len() == 0 {
        assert(parsed(s).0 =~= ms);
    } else {
        let m = ms[0];
        let k = gaps[0] as int;
        let rest_moves = ms.skip(1);
        let rest = ascii(laid_out(rest_moves, gaps.skip(1)));
        assert(m.supported() && 1 <= m.spec_amount() <= 3);
        assert forall|i: int| 0 <= i < rest_moves.len() implies (#[trigger] rest_moves[i]).supported()
            && 1 <= rest_moves[i].spec_amount() <= 3 by {
            assert(rest_moves[i] == ms[i + 1]);
        }
        lemma_parse_laid_out(rest_moves, gaps.skip(1));
        lemma_laid_out_start(rest_moves, gaps.skip(1));
        let shown = m.spec_display();
        let head = ascii(Seq::new(k as nat, |i: int| ' ') + shown);
        assert(s =~= head + rest);
        let after = head.len() as int;
        lemma_parse_shift(head, rest, 0, 0);
        lemma_parse_spaces(s, k as nat, 0);
        assert(s[k] == shown[0] as u8);
        assert(letter(s[k]) == Some(m.spec_with_amount(1)));
        if shown.len() == 2 {
            assert(s[k + 1] == shown[1] as u8);
        } else if rest.len() > 0 {
            assert(s[k + 1] == rest[0]);
        }
        assert(suffix(s, k + 1) == (m.spec_amount(), after));
        assert(m.spec_with_amount(1).spec_with_amount(m.spec_amount()) == m);
        assert(parsed(s).0 =~= ms);
    }
}

/// Move parser round trip: a text that shows moves, with any number of
/// spaces before each, is read as those moves.
pub proof fn lemma_parse_displayed(text: &str, ms: Seq<Move>, gaps: Seq<nat>)
    requires
        writable(ms),
        gaps.len() == ms.len(),
        text@ == laid_out(ms, gaps),
    ensures
        parsed(text.spec_bytes()) == (ms, text.spec_bytes().len() as int),
{
    lemma_laid_out_start(ms, gaps);
    is_ascii_chars_encode_utf8(text@);
    assert(text.spec_bytes() =~= ascii(text@));
    lemma_parse_laid_out(ms, gaps);
}

} // verus!
