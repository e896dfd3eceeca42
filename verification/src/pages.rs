//! Standard offset/limit pagination over the identifier universe, used by the
//! full-corpus mode of the orchestrator.

use vstd::prelude::*;
use vstd::arithmetic::div_mod::lemma_fundamental_div_mod;
use crate::text::dec_str;
use crate::text::u64_dec_chars;
use crate::text::string_from_chars;

verus! {

/// One page of a paged identifier query.
#[derive(Debug, Clone, Copy)]
pub struct QueryPage {
    pub offset: u64,
    pub limit: u64,
}

impl Default for QueryPage {
    /// The default page reads the first hundred identifiers.
    fn default() -> (r: Self)
        ensures
            r.offset == 0 && r.limit == 100,
    {
        QueryPage { offset: 0, limit: 100 }
    }
}

impl QueryPage {
    /// The page written as `(offset:limit)`, as the run log shows it.
    pub fn display_string(&self) -> (r: String)
        ensures
            r@ == seq!['('] + dec_str(self.offset as nat) + seq![':'] + dec_str(self.limit as nat)
                + seq![')'],
    {
        let mut v: Vec<char> = Vec::new();
        v.push('(');
        let mut o = u64_dec_chars(self.offset);
        v.append(&mut o);
        v.push(':');
        let mut l = u64_dec_chars(self.limit);
        v.append(&mut l);
        v.push(')');
        proof {
            assert(v@ =~= seq!['('] + dec_str(self.offset as nat) + seq![':'] + dec_str(
                self.limit as nat,
            ) + seq![')']);
        }
        string_from_chars(&v)
    }
}

/// How many pages of size `page_size` cover `total` identifiers: the
/// quotient, plus one more page for a nonzero remainder.
pub open spec fn page_count(total: u64, page_size: u64) -> int
    recommends
        page_size >= 1,
{
    total as int / page_size as int + if total as int % page_size as int != 0 {
        1int
    } else {
        0int
    }
}

/// The pages that pull `total` identifiers, `page_size` at a time: page `k`
/// starts at offset `k * page_size`, and together the pages cover every
/// identifier exactly once.
pub fn page_iter(total: u64, page_size: u64) -> (r: Vec<QueryPage>)
    requires
        page_size >= 1,
    ensures
        r@.len() == page_count(total, page_size),
        forall|k: int|
            0 <= k < r@.len() ==> (#[trigger] r@[k]).offset == k * page_size && r@[k].limit
                == page_size,
{
    proof {
        lemma_fundamental_div_mod(total as int, page_size as int);
    }
    let q = total / page_size;
    let rem = total % page_size;
    let pages_total = if rem != 0 {
        proof {
            assert(q < total) by (nonlinear_arith)
                requires
                    page_size >= 1,
                    rem >= 1,
                    total as int == page_size as int * (q as int) + rem as int,
            ;
        }
        q + 1
    } else {
        q
    };
    let mut r: Vec<QueryPage> = Vec::new();
    let mut k: u64 = 0;
    let mut offset: u64 = 0;
    while k < pages_total
        invariant
            0 <= k <= pages_total,
            page_size >= 1,
            pages_total == page_count(total, page_size),
            total as int == page_size as int * (total as int / page_size as int) + total as int
                % page_size as int,
            k < pages_total ==> offset == k as int * page_size as int && offset <= total,
            r@.len() == k,
            forall|t: int|
                0 <= t < r@.len() ==> (#[trigger] r@[t]).offset == t * page_size && r@[t].limit
                    == page_size,
        decreases pages_total - k,
    {
        r.push(QueryPage { offset, limit: page_size });
        k += 1;
        if k < pages_total {
            proof {
                assert(k as int * page_size as int == (k - 1) as int * page_size as int
                    + page_size as int) by (nonlinear_arith);
                assert((pages_total - 1) as int * page_size as int <= total as int)
                    by (nonlinear_arith)
                    requires
                        page_size as int >= 1,
                        total as int >= 0,
                        pages_total == page_count(total, page_size),
                        total as int == page_size as int * (total as int / page_size as int)
                            + total as int % page_size as int,
                        0 <= total as int % page_size as int,
                        (total as int % page_size as int) < (page_size as int),
                ;
                assert(k as int * page_size as int <= total as int) by (nonlinear_arith)
                    requires
                        k as int <= (pages_total - 1) as int,
                        page_size as int >= 1,
                        (pages_total - 1) as int * page_size as int <= total as int,
                ;
            }
            offset = offset + page_size;
        }
    }
    r
}

} // verus!
