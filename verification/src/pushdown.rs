//! Which pushed-down predicates the vectorized executor re-checks as filter terms, and how a
//! zone-map constant is typed. A predicate on an unknown column, a zone-map predicate whose
//! constant has no literal type, or an empty IN-list gives no term (it could not have been
//! pushed); the terms are conjoined in the order given.
use crate::columns::{DATE_OID, TIMESTAMPTZ_OID, TIMESTAMP_OID};
use vstd::prelude::*;

verus! {

/// The literal a zone-map constant becomes.
#[derive(Clone, Copy, Debug, PartialEq, Eq, Structural)]
pub enum ZoneLiteral {
    /// Microseconds, for a `timestamp` or `timestamptz` column.
    Timestamp,
    /// Days, for a `date` column.
    Date,
    /// Typed by the column's min/max kind.
    ByKind,
}

/// The literal type of a zone-map constant on a column of type `atttypid`.
pub fn zone_literal(atttypid: u32) -> (r: ZoneLiteral)
    ensures
        r == (if atttypid == TIMESTAMP_OID || atttypid == TIMESTAMPTZ_OID {
            ZoneLiteral::Timestamp
        } else if atttypid == DATE_OID {
            ZoneLiteral::Date
        } else {
            ZoneLiteral::ByKind
        }),
{
    if atttypid == TIMESTAMP_OID || atttypid == TIMESTAMPTZ_OID {
        ZoneLiteral::Timestamp
    } else if atttypid == DATE_OID {
        ZoneLiteral::Date
    } else {
        ZoneLiteral::ByKind
    }
}

/// A pushed predicate, as far as its filter term is concerned.
#[derive(Clone, Copy, Debug, PartialEq, Eq, Structural)]
pub enum Pushed {
    /// `col <op> const` from the zone map; `has_kind` when the column's type has a min/max kind.
    Zone { col: usize, atttypid: u32, has_kind: bool },
    /// `col <op> 'needle'` over a text column.
    Text { col: usize },
    /// `col IN (...)` with `nconsts` constants.
    InList { col: usize, nconsts: usize },
}

/// `p` gives a filter term over a relation of `natts` columns.
pub open spec fn term_applies(p: Pushed, natts: usize) -> bool {
    match p {
        Pushed::Zone { col, atttypid, has_kind } => col < natts && (has_kind || atttypid == TIMESTAMP_OID
            || atttypid == TIMESTAMPTZ_OID || atttypid == DATE_OID),
        Pushed::Text { col } => col < natts,
        Pushed::InList { col, nconsts } => col < natts && nconsts > 0,
    }
}

/// The positions of the predicates of `ps` that give terms, in order.
pub open spec fn spec_filter_terms(ps: Seq<Pushed>, natts: usize) -> Seq<usize>
    decreases ps.len(),
{
    if ps.len() == 0 {
        Seq::empty()
    } else {
        let t = spec_filter_terms(ps.drop_last(), natts);
        if term_applies(ps.last(), natts) {
            t.push((ps.len() - 1) as usize)
        } else {
            t
        }
    }
}

/// Whether one pushed predicate gives a filter term.
pub fn filter_term_applies(p: &Pushed, natts: usize) -> (r: bool)
    ensures
        r == term_applies(*p, natts),
{
    match p {
        Pushed::Zone { col, atttypid, has_kind } => {
            let typed = match zone_literal(*atttypid) {
                ZoneLiteral::ByKind => *has_kind,
                _ => true,
            };
            *col < natts && typed
        },
        Pushed::Text { col } => *col < natts,
        Pushed::InList { col, nconsts } => *col < natts && *nconsts > 0,
    }
}

/// The positions of the pushed predicates that become filter terms, in order.
pub fn filter_terms(ps: &[Pushed], natts: usize) -> (r: Vec<usize>)
    ensures
        r@ == spec_filter_terms(ps@, natts),
{
    let mut out: Vec<usize> = Vec::new();
    let mut i: usize = 0;
    while i < ps.len()
        invariant
            i <= ps@.len(),
            out@ == spec_filter_terms(ps@.take(i as int), natts),
        decreases ps@.len() - i,
    {
        proof {
            assert(ps@.take(i + 1).drop_last() =~= ps@.take(i as int));
        }
        if filter_term_applies(&ps[i], natts) {
            out.push(i);
        }
        i = i + 1;
    }
    proof {
        assert(ps@.take(ps@.len() as int) =~= ps@);
    }
    out
}

/// The terms are exactly the applicable predicates, each once and in order.
pub proof fn lemma_filter_terms(ps: Seq<Pushed>, natts: usize)
    requires
        ps.len() <= usize::MAX,
    ensures
        forall|k: int|
            0 <= k < spec_filter_terms(ps, natts).len() ==> #[trigger] spec_filter_terms(ps, natts)[k] < ps.len()
                && term_applies(ps[spec_filter_terms(ps, natts)[k] as int], natts),
        forall|k1: int, k2: int|
            0 <= k1 < k2 < spec_filter_terms(ps, natts).len() ==> #[trigger] spec_filter_terms(ps, natts)[k1]
                < #[trigger] spec_filter_terms(ps, natts)[k2],
        forall|j: int|
            0 <= j < ps.len() && #[trigger] term_applies(ps[j], natts) ==> spec_filter_terms(ps, natts).contains(
                j as usize,
            ),
    decreases ps.len(),
{
    if ps.len() > 0 {
        let p = ps.drop_last();
        lemma_filter_terms(p, natts);
        let t = spec_filter_terms(p, natts);
        let s = spec_filter_terms(ps, natts);
        assert forall|k: int| 0 <= k < s.len() implies #[trigger] s[k] < ps.len() && term_applies(
            ps[s[k] as int],
            natts,
        ) by {
            if k < t.len() {
                assert(s[k] == t[k]);
                assert(p[t[k] as int] == ps[t[k] as int]);
            }
        }
        assert forall|k1: int, k2: int| 0 <= k1 < k2 < s.len() implies #[trigger] s[k1] < #[trigger] s[k2] by {
            assert(s[k1] == t[k1]);
            if k2 < t.len() {
                assert(s[k2] == t[k2]);
            }
        }
        assert forall|j: int| 0 <= j < ps.len() && #[trigger] term_applies(ps[j], natts) implies s.contains(
            j as usize,
        ) by {
            if j < ps.len() - 1 {
                assert(p[j] == ps[j]);
                assert(term_applies(p[j], natts));
                let k = choose|k: int| 0 <= k < t.len() && t[k] == j as usize;
                assert(s[k] == j as usize);
            } else {
                assert(s[s.len() - 1] == j as usize);
            }
        }
    }
}

} // verus!
