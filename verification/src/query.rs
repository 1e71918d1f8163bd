//! Text for the encounter queries: names quoted as SQL string literals.
use crate::text::{chars_of_str, push_char};
use vstd::prelude::*;

verus! {

/// `s` with every single quote doubled.
pub open spec fn quotes_doubled(s: Seq<char>) -> Seq<char>
    decreases s.len(),
{
    if s.len() == 0 {
        Seq::empty()
    } else {
        let prev = quotes_doubled(s.drop_last());
        if s.last() == '\'' {
            prev + seq!['\'', '\'']
        } else {
            prev.push(s.last())
        }
    }
}

/// Escape single quotes for SQL string literals (O'Brien -> O''Brien).
pub fn sql_escape(s: &str) -> (r: String)
    ensures
        r@ == quotes_doubled(s@),
{
    let cs = chars_of_str(s);
    let mut out = String::new();
    let mut i: usize = 0;
    while i < cs.len()
        invariant
            i <= cs@.len(),
            cs@ == s@,
            out@ == quotes_doubled(cs@.take(i as int)),
        decreases cs@.len() - i,
    {
        proof {
            let t = cs@.take(i as int + 1);
            assert(t.drop_last() =~= cs@.take(i as int));
            assert(t.last() == cs@[i as int]);
        }
        let c = cs[i];
        if c == '\'' {
            let ghost before = out@;
            push_char(&mut out, '\'');
            push_char(&mut out, '\'');
            proof {
                assert(out@ =~= before + seq!['\'', '\'']);
            }
        } else {
            push_char(&mut out, c);
        }
        i += 1;
    }
    proof {
        assert(cs@.take(i as int) =~= cs@);
    }
    out
}

} // verus!
