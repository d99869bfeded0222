//! Splitting an editor command line into tokens on blanks: the first token
//! names the executable, the rest are its leading arguments. No quoting is
//! supported.

use vstd::prelude::*;

verus! {

/// ASCII whitespace, the token separators.
pub open spec fn is_blank(b: u8) -> bool {
    b == 32 || b == 9 || b == 10 || b == 13 || b == 11 || b == 12
}

/// Decides `is_blank`.
pub fn byte_is_blank(b: u8) -> (r: bool)
    ensures
        r == is_blank(b),
{
    b == 32 || b == 9 || b == 10 || b == 13 || b == 11 || b == 12
}

/// The pending token, as the tokens it contributes: none when empty.
pub open spec fn flush(cur: Seq<u8>) -> Seq<Seq<u8>> {
    if cur.len() > 0 {
        seq![cur]
    } else {
        Seq::empty()
    }
}

/// Tokens of `s` when a partial token `cur` has been read already.
pub open spec fn split_go(s: Seq<u8>, cur: Seq<u8>) -> Seq<Seq<u8>>
    decreases s.len(),
{
    if s.len() == 0 {
        flush(cur)
    } else if is_blank(s[0]) {
        flush(cur) + split_go(s.skip(1), Seq::empty())
    } else {
        split_go(s.skip(1), cur.push(s[0]))
    }
}

/// The blank-separated tokens of a byte string: its maximal runs of
/// non-blank bytes, in order.
pub open spec fn split_blanks(s: Seq<u8>) -> Seq<Seq<u8>> {
    split_go(s, Seq::empty())
}

/// The views of a sequence of tokens.
pub open spec fn token_views(ts: Seq<Vec<u8>>) -> Seq<Seq<u8>> {
    ts.map_values(|t: Vec<u8>| t@)
}

/// Every token is non-empty.
pub proof fn lemma_split_tokens_nonempty(s: Seq<u8>, cur: Seq<u8>)
    ensures
        forall|j: int| 0 <= j < split_go(s, cur).len() ==> (#[trigger] split_go(s, cur)[j]).len()
            > 0,
    decreases s.len(),
{
    if s.len() == 0 {
        if cur.len() > 0 {
            assert(split_go(s, cur) =~= seq![cur]);
        }
    } else if is_blank(s[0]) {
        lemma_split_tokens_nonempty(s.skip(1), Seq::empty());
        assert forall|j: int| 0 <= j < split_go(s, cur).len() implies (#[trigger] split_go(
            s,
            cur,
        )[j]).len() > 0 by {
            if j < flush(cur).len() {
                assert(split_go(s, cur)[j] == flush(cur)[j]);
                assert(flush(cur)[j] == cur);
            } else {
                assert(split_go(s, cur)[j] == split_go(s.skip(1), Seq::empty())[j - flush(
                    cur,
                ).len()]);
            }
        }
    } else {
        lemma_split_tokens_nonempty(s.skip(1), cur.push(s[0]));
        assert(split_go(s, cur) == split_go(s.skip(1), cur.push(s[0])));
    }
}

/// Splits a command line into its blank-separated tokens.
pub fn split_command(s: &Vec<u8>) -> (r: Vec<Vec<u8>>)
    ensures
        token_views(r@) == split_blanks(s@),
        forall|j: int| 0 <= j < r@.len() ==> (#[trigger] r@[j])@.len() > 0,
{
    let mut toks: Vec<Vec<u8>> = Vec::new();
    let mut cur: Vec<u8> = Vec::new();
    let mut i: usize = 0;
    proof {
        assert(s@.skip(0) =~= s@);
        assert(token_views(toks@) =~= Seq::<Seq<u8>>::empty());
        assert(Seq::<Seq<u8>>::empty() + split_go(s@, cur@) =~= split_go(s@, cur@));
    }
    while i < s.len()
        invariant
            i <= s.len(),
            split_blanks(s@) == token_views(toks@) + split_go(s@.skip(i as int), cur@),
        decreases s.len() - i,
    {
        let b = s[i];
        proof {
            assert(s@.skip(i as int)[0] == s@[i as int]);
            assert(s@.skip(i as int).skip(1) =~= s@.skip(i + 1));
        }
        if byte_is_blank(b) {
            if cur.len() > 0 {
                let ghost old_toks = token_views(toks@);
                let ghost done = cur@;
                toks.push(cur);
                cur = Vec::new();
                proof {
                    assert(token_views(toks@) =~= old_toks.push(done));
                    assert(old_toks + (flush(done) + split_go(s@.skip(i + 1), Seq::empty()))
                        =~= token_views(toks@) + split_go(s@.skip(i + 1), cur@));
                }
            } else {
                proof {
                    assert(cur@ =~= Seq::<u8>::empty());
                    assert(flush(cur@) + split_go(s@.skip(i + 1), Seq::empty()) =~= split_go(
                        s@.skip(i + 1),
                        cur@,
                    ));
                }
            }
        } else {
            cur.push(b);
        }
        i = i + 1;
    }
    proof {
        assert(s@.skip(s@.len() as int) =~= Seq::<u8>::empty());
    }
    if cur.len() > 0 {
        let ghost old_toks = token_views(toks@);
        let ghost done = cur@;
        toks.push(cur);
        proof {
            assert(token_views(toks@) =~= old_toks.push(done));
            assert(old_toks + flush(done) =~= token_views(toks@));
        }
    } else {
        proof {
            assert(token_views(toks@) + flush(cur@) =~= token_views(toks@));
        }
    }
    proof {
        lemma_split_tokens_nonempty(s@, Seq::<u8>::empty());
        assert forall|j: int| 0 <= j < toks@.len() implies (#[trigger] toks@[j])@.len() > 0 by {
            assert(token_views(toks@)[j] == toks@[j]@);
        }
    }
    toks
}

} // verus!
