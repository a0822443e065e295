//! Properties of construction and flag generation, stated over the models
//! that the contracts of `Lints::new` and `Lints::set_flags` use.

use vstd::prelude::*;

use crate::kind::{kind_of_state, marker, LintKind};
use crate::lints::Lints;
use crate::lints::{
    bucket, declared_lints, declared_warnings, flag_pair, has_name, invalid_state_warning,
    joined, lint_flags, merged_bucket, names_unique,
};

verus! {

/// A name is in a bucket exactly when some entry has it at that severity and
/// the shadowing table does not hold it.
pub proof fn lemma_bucket_contains(
    es: Seq<(Seq<char>, LintKind)>,
    k: LintKind,
    shadow: Seq<(Seq<char>, LintKind)>,
    n: Seq<char>,
)
    ensures
        bucket(es, k, shadow).contains(n) <==> (!has_name(shadow, n) && exists|j: int|
            0 <= j < es.len() && #[trigger] es[j] == (n, k)),
    decreases es.len(),
{
    if es.len() > 0 {
        let init = es.drop_last();
        lemma_bucket_contains(init, k, shadow, n);
        let prev = bucket(init, k, shadow);
        if bucket(es, k, shadow).contains(n) {
            let w = choose|w: int| 0 <= w < bucket(es, k, shadow).len() && bucket(es, k, shadow)[w] == n;
            if w < prev.len() {
                assert(prev[w] == n);
                let j = choose|j: int| 0 <= j < init.len() && #[trigger] init[j] == (n, k);
                assert(es[j] == (n, k));
            } else {
                assert(es[es.len() - 1] == (n, k));
            }
        }
        if !has_name(shadow, n) && exists|j: int| 0 <= j < es.len() && #[trigger] es[j] == (n, k) {
            let j = choose|j: int| 0 <= j < es.len() && #[trigger] es[j] == (n, k);
            if j < init.len() {
                assert(init[j] == (n, k));
                let w = choose|w: int| 0 <= w < prev.len() && prev[w] == n;
                assert(bucket(es, k, shadow)[w] == n);
            } else {
                assert(bucket(es, k, shadow).last() == n);
            }
        }
    }
}

/// A single declaration at a valid severity gives one lint, which the flags
/// against an empty fallback table list exactly once, under that severity
/// and under no other.
pub proof fn lemma_single_valid_declaration(n: Seq<char>, s: Seq<char>)
    requires
        kind_of_state(s) is Some,
    ensures
        declared_lints(seq![(n, s)]) == seq![(n, kind_of_state(s)->0)],
        declared_warnings(seq![(n, s)]) == Seq::<Seq<char>>::empty(),
        forall|k: LintKind|
            #[trigger] merged_bucket(declared_lints(seq![(n, s)]), seq![], k) == if k
                == kind_of_state(s)->0 {
                seq![n]
            } else {
                Seq::<Seq<char>>::empty()
            },
        lint_flags(declared_lints(seq![(n, s)]), seq![]) == flag_pair(kind_of_state(s)->0, n),
{
    let decl = seq![(n, s)];
    let k = kind_of_state(s)->0;
    assert(decl.drop_last() =~= Seq::<(Seq<char>, Seq<char>)>::empty());
    assert(!has_name(Seq::<(Seq<char>, LintKind)>::empty(), n));
    assert(decl.last() == (n, s));
    assert(declared_lints(decl.drop_last()) =~= Seq::<(Seq<char>, LintKind)>::empty());
    assert(declared_warnings(decl.drop_last()) =~= Seq::<Seq<char>>::empty());
    let es = declared_lints(decl);
    assert(es =~= seq![(n, k)]);
    assert(declared_warnings(decl) =~= Seq::<Seq<char>>::empty());
    assert forall|k2: LintKind| #[trigger]
        merged_bucket(es, seq![], k2) == if k2 == k {
            seq![n]
        } else {
            Seq::<Seq<char>>::empty()
        } by {
        assert(es.drop_last() =~= Seq::<(Seq<char>, LintKind)>::empty());
        assert(!has_name(Seq::<(Seq<char>, LintKind)>::empty(), n));
        assert(es.last() == (n, k));
        assert(bucket(es.drop_last(), k2, seq![]) =~= Seq::<Seq<char>>::empty());
        assert(bucket(Seq::<(Seq<char>, LintKind)>::empty(), k2, es) =~= Seq::<Seq<char>>::empty());
        assert(merged_bucket(es, seq![], k2) =~= bucket(es, k2, seq![]));
        if k2 == k {
            assert(bucket(es, k2, seq![]) =~= seq![n]);
        } else {
            assert(bucket(es, k2, seq![]) =~= Seq::<Seq<char>>::empty());
        }
    }
    let names = seq![n];
    assert(joined(names) == n);
    assert(joined(Seq::<Seq<char>>::empty()) =~= Seq::<char>::empty());
    let f = lint_flags(es, seq![]);
    assert(merged_bucket(es, seq![], LintKind::Allow) == if LintKind::Allow == k { seq![n] } else { Seq::<Seq<char>>::empty() });
    assert(merged_bucket(es, seq![], LintKind::Warn) == if LintKind::Warn == k { seq![n] } else { Seq::<Seq<char>>::empty() });
    assert(merged_bucket(es, seq![], LintKind::Deny) == if LintKind::Deny == k { seq![n] } else { Seq::<Seq<char>>::empty() });
    match k {
        LintKind::Allow => assert(f =~= flag_pair(k, n)),
        LintKind::Warn => assert(f =~= flag_pair(k, n)),
        LintKind::Deny => assert(f =~= flag_pair(k, n)),
    }
}

/// A single declaration whose state is not a severity gives exactly one
/// warning, which names the lint, and no lint: against an empty fallback
/// table no bucket holds the name, and no flag is generated.
pub proof fn lemma_single_invalid_declaration(n: Seq<char>, s: Seq<char>)
    requires
        kind_of_state(s) is None,
    ensures
        declared_lints(seq![(n, s)]) == Seq::<(Seq<char>, LintKind)>::empty(),
        declared_warnings(seq![(n, s)]) == seq![invalid_state_warning(n)],
        forall|k: LintKind|
            !(#[trigger] merged_bucket(declared_lints(seq![(n, s)]), seq![], k)).contains(n),
        lint_flags(declared_lints(seq![(n, s)]), seq![]) == Seq::<Seq<char>>::empty(),
{
    let decl = seq![(n, s)];
    assert(decl.drop_last() =~= Seq::<(Seq<char>, Seq<char>)>::empty());
    assert(decl.last() == (n, s));
    assert(declared_lints(decl.drop_last()) =~= Seq::<(Seq<char>, LintKind)>::empty());
    assert(declared_warnings(decl.drop_last()) =~= Seq::<Seq<char>>::empty());
    let es = declared_lints(decl);
    assert(es =~= Seq::<(Seq<char>, LintKind)>::empty());
    assert(declared_warnings(decl) =~= seq![invalid_state_warning(n)]);
    assert forall|k: LintKind| #[trigger] merged_bucket(es, seq![], k) =~= Seq::<Seq<char>>::empty() by {
        assert(bucket(es, k, seq![]) =~= Seq::<Seq<char>>::empty());
        assert(bucket(Seq::<(Seq<char>, LintKind)>::empty(), k, es) =~= Seq::<Seq<char>>::empty());
    }
    assert(merged_bucket(es, seq![], LintKind::Allow) =~= Seq::<Seq<char>>::empty());
    assert(merged_bucket(es, seq![], LintKind::Warn) =~= Seq::<Seq<char>>::empty());
    assert(merged_bucket(es, seq![], LintKind::Deny) =~= Seq::<Seq<char>>::empty());
    assert(joined(Seq::<Seq<char>>::empty()) =~= Seq::<char>::empty());
    assert(lint_flags(es, seq![]) =~= Seq::<Seq<char>>::empty());
}

/// A table shadows its fallback by name: a lint of `mine` is listed under its
/// own severity and under no other, whatever `other` says of it.
pub proof fn lemma_mine_shadows_other(
    mine: Seq<(Seq<char>, LintKind)>,
    other: Seq<(Seq<char>, LintKind)>,
    i: int,
    k: LintKind,
)
    requires
        names_unique(mine),
        0 <= i < mine.len(),
    ensures
        merged_bucket(mine, other, k).contains(mine[i].0) <==> mine[i].1 == k,
{
    let n = mine[i].0;
    lemma_bucket_contains(mine, k, seq![], n);
    lemma_bucket_contains(other, k, mine, n);
    assert(!has_name(Seq::<(Seq<char>, LintKind)>::empty(), n));
    assert(has_name(mine, n));
    let m = merged_bucket(mine, other, k);
    let a = bucket(mine, k, seq![]);
    let b = bucket(other, k, mine);
    if m.contains(n) {
        let w = choose|w: int| 0 <= w < m.len() && m[w] == n;
        if w < a.len() {
            assert(a[w] == n);
            let j = choose|j: int| 0 <= j < mine.len() && #[trigger] mine[j] == (n, k);
            assert(mine[j].0 == mine[i].0);
        } else {
            assert(b[w - a.len()] == n);
        }
    }
    if mine[i].1 == k {
        assert(mine[i] == (n, k));
        let w = choose|w: int| 0 <= w < a.len() && a[w] == n;
        assert(m[w] == n);
    }
}

/// A lint of `other` that `mine` does not hold is listed under its own
/// severity in the merged flags.
pub proof fn lemma_other_fills_in(
    mine: Seq<(Seq<char>, LintKind)>,
    other: Seq<(Seq<char>, LintKind)>,
    j: int,
)
    requires
        0 <= j < other.len(),
        !has_name(mine, other[j].0),
    ensures
        merged_bucket(mine, other, other[j].1).contains(other[j].0),
{
    let n = other[j].0;
    let k = other[j].1;
    lemma_bucket_contains(other, k, mine, n);
    assert(other[j] == (n, k));
    let a = bucket(mine, k, seq![]);
    let b = bucket(other, k, mine);
    let w = choose|w: int| 0 <= w < b.len() && b[w] == n;
    assert(merged_bucket(mine, other, k)[a.len() + w] == n);
}

/// Where no lint of `mine`, and no lint of `other` that `mine` leaves
/// unshadowed, is at warn, the warn bucket is empty and no `-W` marker is
/// generated: the flags are the allow pair and the deny pair alone.
pub proof fn lemma_empty_warn_elided(
    mine: Seq<(Seq<char>, LintKind)>,
    other: Seq<(Seq<char>, LintKind)>,
)
    requires
        forall|i: int| 0 <= i < mine.len() ==> #[trigger] mine[i].1 != LintKind::Warn,
        forall|j: int|
            0 <= j < other.len() && #[trigger] other[j].1 == LintKind::Warn ==> has_name(
                mine,
                other[j].0,
            ),
    ensures
        merged_bucket(mine, other, LintKind::Warn) == Seq::<Seq<char>>::empty(),
        lint_flags(mine, other) == flag_pair(
            LintKind::Allow,
            joined(merged_bucket(mine, other, LintKind::Allow)),
        ) + flag_pair(LintKind::Deny, joined(merged_bucket(mine, other, LintKind::Deny))),
        forall|i: int|
            0 <= i < lint_flags(mine, other).len() && i % 2 == 0 ==> #[trigger] lint_flags(
                mine,
                other,
            )[i] != marker(LintKind::Warn),
{
    let m = merged_bucket(mine, other, LintKind::Warn);
    if m.len() > 0 {
        let n = m[0];
        assert(m.contains(n));
        lemma_bucket_contains(mine, LintKind::Warn, seq![], n);
        lemma_bucket_contains(other, LintKind::Warn, mine, n);
        let a = bucket(mine, LintKind::Warn, seq![]);
        if a.len() > 0 {
            assert(a.contains(a[0]));
            lemma_bucket_contains(mine, LintKind::Warn, seq![], a[0]);
            let j = choose|j: int| 0 <= j < mine.len() && #[trigger] mine[j] == (a[0], LintKind::Warn);
            assert(mine[j].1 == LintKind::Warn);
        } else {
            assert(m[0] == bucket(other, LintKind::Warn, mine)[0]);
            assert(bucket(other, LintKind::Warn, mine).contains(n));
            let j = choose|j: int| 0 <= j < other.len() && #[trigger] other[j] == (n, LintKind::Warn);
            assert(other[j].1 == LintKind::Warn);
        }
    }
    assert(m =~= Seq::<Seq<char>>::empty());
    assert(joined(m) =~= Seq::<char>::empty());
    let pa = flag_pair(LintKind::Allow, joined(merged_bucket(mine, other, LintKind::Allow)));
    let pd = flag_pair(LintKind::Deny, joined(merged_bucket(mine, other, LintKind::Deny)));
    let f = lint_flags(mine, other);
    assert(f =~= pa + pd);
    reveal_strlit("-A");
    reveal_strlit("-W");
    reveal_strlit("-D");
    assert("-A"@[1] != "-W"@[1]);
    assert("-D"@[1] != "-W"@[1]);
    assert forall|i: int| 0 <= i < f.len() && i % 2 == 0 implies #[trigger] f[i] != marker(
        LintKind::Warn,
    ) by {
        if i < pa.len() {
            assert(f[i] == "-A"@);
        } else {
            assert(f[i] == "-D"@);
        }
    }
}

/// The flags are a function of the two tables' contents: tables with equal
/// contents give equal flags, on every call.
pub proof fn lemma_flags_deterministic(mine: Lints, other: Lints, mine2: Lints, other2: Lints)
    requires
        mine@ == mine2@,
        other@ == other2@,
    ensures
        lint_flags(mine@, other@) == lint_flags(mine2@, other2@),
{
}

} // verus!
