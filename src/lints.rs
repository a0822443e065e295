//! A table of lint severities for one configuration scope, and the compiler
//! flags it yields when merged with a fallback table.

use vstd::prelude::*;

use crate::kind::{kind_of_state, marker, LintKind};

verus! {

/// The lint severities of one configuration scope, in the order in which the
/// manifest declared them, each name at most once.
#[derive(Clone, Debug)]
pub struct Lints {
    lints: Vec<(String, LintKind)>,
    required_features: Option<Vec<String>>,
}

/// The characters of each string.
pub open spec fn strings_view(v: Seq<String>) -> Seq<Seq<char>> {
    v.map_values(|s: String| s@)
}

/// A manifest's declarations as name and state text.
pub open spec fn declarations_view(v: Seq<(String, String)>) -> Seq<(Seq<char>, Seq<char>)> {
    v.map_values(|e: (String, String)| (e.0@, e.1@))
}

/// Whether some entry has name `n`.
pub open spec fn has_name(es: Seq<(Seq<char>, LintKind)>, n: Seq<char>) -> bool {
    exists|i: int| 0 <= i < es.len() && #[trigger] es[i].0 == n
}

/// No name stands in two entries.
pub open spec fn names_unique(es: Seq<(Seq<char>, LintKind)>) -> bool {
    forall|i: int, j: int|
        0 <= i < es.len() && 0 <= j < es.len() && i != j ==> #[trigger] es[i].0 != #[trigger] es[j].0
}

/// The entries after recording `n` at severity `k`: an entry of that name
/// takes the new severity in place, else the entry is appended.
pub open spec fn with_entry(
    es: Seq<(Seq<char>, LintKind)>,
    n: Seq<char>,
    k: LintKind,
) -> Seq<(Seq<char>, LintKind)> {
    if has_name(es, n) {
        es.map_values(|e: (Seq<char>, LintKind)| if e.0 == n { (n, k) } else { e })
    } else {
        es.push((n, k))
    }
}

/// The entries that declarations `decl` record, read in order: a valid state
/// records its severity (a later one for the same name wins), any other is dropped.
pub open spec fn declared_lints(decl: Seq<(Seq<char>, Seq<char>)>) -> Seq<(Seq<char>, LintKind)>
    decreases decl.len(),
{
    if decl.len() == 0 {
        seq![]
    } else {
        let prev = declared_lints(decl.drop_last());
        match kind_of_state(decl.last().1) {
            Some(k) => with_entry(prev, decl.last().0, k),
            None => prev,
        }
    }
}

/// The warning given for a lint named `n` whose state is not a severity.
pub open spec fn invalid_state_warning(n: Seq<char>) -> Seq<char> {
    "invalid lint state for \""@ + n + "\" (expected \"warn\", \"allow\" or \"deny\")"@
}

/// The warnings that declarations `decl` give, one per invalid state, in order.
pub open spec fn declared_warnings(decl: Seq<(Seq<char>, Seq<char>)>) -> Seq<Seq<char>>
    decreases decl.len(),
{
    if decl.len() == 0 {
        seq![]
    } else {
        let prev = declared_warnings(decl.drop_last());
        match kind_of_state(decl.last().1) {
            Some(_) => prev,
            None => prev.push(invalid_state_warning(decl.last().0)),
        }
    }
}

/// The names of the entries of `es` at severity `k` that `shadow` does not
/// name, in the order of `es`.
pub open spec fn bucket(
    es: Seq<(Seq<char>, LintKind)>,
    k: LintKind,
    shadow: Seq<(Seq<char>, LintKind)>,
) -> Seq<Seq<char>>
    decreases es.len(),
{
    if es.len() == 0 {
        seq![]
    } else {
        let prev = bucket(es.drop_last(), k, shadow);
        if es.last().1 == k && !has_name(shadow, es.last().0) {
            prev.push(es.last().0)
        } else {
            prev
        }
    }
}

/// The names at severity `k` once `mine` is merged over `other`: those of
/// `mine`, then those of `other` whose name `mine` does not hold at any severity.
pub open spec fn merged_bucket(
    mine: Seq<(Seq<char>, LintKind)>,
    other: Seq<(Seq<char>, LintKind)>,
    k: LintKind,
) -> Seq<Seq<char>> {
    bucket(mine, k, seq![]) + bucket(other, k, mine)
}

/// The names separated by commas.
pub open spec fn joined(names: Seq<Seq<char>>) -> Seq<char>
    decreases names.len(),
{
    if names.len() == 0 {
        seq![]
    } else if names.len() == 1 {
        names[0]
    } else {
        joined(names.drop_last()) + ","@ + names.last()
    }
}

/// The marker of `k` followed by `list`, or nothing where `list` is empty.
pub open spec fn flag_pair(k: LintKind, list: Seq<char>) -> Seq<Seq<char>> {
    if list.len() > 0 {
        seq![marker(k), list]
    } else {
        seq![]
    }
}

/// The flags for `mine` merged over `other`: a pair for each severity whose
/// joined names are not empty, allow first, then warn, then deny.
pub open spec fn lint_flags(
    mine: Seq<(Seq<char>, LintKind)>,
    other: Seq<(Seq<char>, LintKind)>,
) -> Seq<Seq<char>> {
    flag_pair(LintKind::Allow, joined(merged_bucket(mine, other, LintKind::Allow)))
        + flag_pair(LintKind::Warn, joined(merged_bucket(mine, other, LintKind::Warn)))
        + flag_pair(LintKind::Deny, joined(merged_bucket(mine, other, LintKind::Deny)))
}

proof fn lemma_joined_push(names: Seq<Seq<char>>, x: Seq<char>)
    ensures
        joined(names.push(x)) == if names.len() == 0 {
            x
        } else {
            joined(names) + ","@ + x
        },
{
    assert(names.push(x).drop_last() =~= names);
}

proof fn lemma_bucket_step(
    es: Seq<(Seq<char>, LintKind)>,
    i: int,
    k: LintKind,
    shadow: Seq<(Seq<char>, LintKind)>,
)
    requires
        0 <= i < es.len(),
    ensures
        bucket(es.take(i + 1), k, shadow) == if es[i].1 == k && !has_name(shadow, es[i].0) {
            bucket(es.take(i), k, shadow).push(es[i].0)
        } else {
            bucket(es.take(i), k, shadow)
        },
{
    assert(es.take(i + 1).drop_last() =~= es.take(i));
}

impl View for Lints {
    type V = Seq<(Seq<char>, LintKind)>;

    closed spec fn view(&self) -> Seq<(Seq<char>, LintKind)> {
        self.lints@.map_values(|e: (String, LintKind)| (e.0@, e.1))
    }
}

impl Lints {
    /// Each lint name has exactly one severity.
    pub open spec fn wf(&self) -> bool {
        names_unique(self@)
    }

    /// The required features, as given at construction.
    pub closed spec fn features(&self) -> Option<Seq<Seq<char>>> {
        match &self.required_features {
            Some(v) => Some(strings_view(v@)),
            None => None,
        }
    }

    proof fn lemma_with_entry_unique(es: Seq<(Seq<char>, LintKind)>, n: Seq<char>, k: LintKind)
        requires
            names_unique(es),
        ensures
            names_unique(with_entry(es, n, k)),
    {
        let r = with_entry(es, n, k);
        if has_name(es, n) {
            assert forall|i: int, j: int|
                0 <= i < r.len() && 0 <= j < r.len() && i != j implies #[trigger] r[i].0
                != #[trigger] r[j].0 by {
                assert(es[i].0 != es[j].0);
                if es[i].0 == n {
                    assert(r[i].0 == n && r[j].0 == es[j].0);
                } else if es[j].0 == n {
                    assert(r[j].0 == n && r[i].0 == es[i].0);
                }
            }
        } else {
            assert forall|i: int, j: int|
                0 <= i < r.len() && 0 <= j < r.len() && i != j implies #[trigger] r[i].0
                != #[trigger] r[j].0 by {
                if i == es.len() {
                    assert(es[j].0 != n);
                } else if j == es.len() {
                    assert(es[i].0 != n);
                } else {
                    assert(r[i] == es[i] && r[j] == es[j]);
                }
            }
        }
    }

    /// Builds the table from a manifest's declarations, read in order. A state
    /// that is exactly `allow`, `warn` or `deny` records that severity for the
    /// name, a later declaration of the same name replacing an earlier one; any
    /// other state is dropped, and a warning naming the lint is appended to
    /// `warnings`. Never fails.
    pub fn new(
        manifest_lints: &Vec<(String, String)>,
        required_features: Option<Vec<String>>,
        warnings: &mut Vec<String>,
    ) -> (r: Lints)
        ensures
            r@ == declared_lints(declarations_view(manifest_lints@)),
            r.wf(),
            r.features() == match required_features {
                Some(v) => Some(strings_view(v@)),
                None => None::<Seq<Seq<char>>>,
            },
            strings_view(final(warnings)@) == strings_view(old(warnings)@) + declared_warnings(
                declarations_view(manifest_lints@),
            ),
    {
        let ghost decl = declarations_view(manifest_lints@);
        let mut lints = Lints { lints: Vec::new(), required_features };
        assert(lints@ =~= declared_lints(decl.take(0)));
        assert(strings_view(warnings@) =~= strings_view(old(warnings)@) + declared_warnings(
            decl.take(0),
        ));
        let mut i: usize = 0;
        while i < manifest_lints.len()
            invariant
                decl == declarations_view(manifest_lints@),
                i <= manifest_lints@.len(),
                lints@ == declared_lints(decl.take(i as int)),
                lints.wf(),
                lints.features() == match required_features {
                    Some(v) => Some(strings_view(v@)),
                    None => None::<Seq<Seq<char>>>,
                },
                strings_view(warnings@) == strings_view(old(warnings)@) + declared_warnings(
                    decl.take(i as int),
                ),
            decreases manifest_lints@.len() - i,
        {
            let name = &manifest_lints[i].0;
            let state = &manifest_lints[i].1;
            assert(decl.take(i as int + 1).drop_last() == decl.take(i as int));
            assert(decl.take(i as int + 1).last() == (name@, state@));
            match LintKind::from_state(state) {
                Some(kind) => {
                    lints.record(name, kind);
                },
                None => {
                    let ghost before = warnings@;
                    let warning = String::from_str("invalid lint state for \"").concat(
                        name.as_str(),
                    ).concat("\" (expected \"warn\", \"allow\" or \"deny\")");
                    warnings.push(warning);
                    assert(strings_view(warnings@) =~= strings_view(before).push(warning@));
                    assert(strings_view(warnings@) =~= strings_view(old(warnings)@)
                        + declared_warnings(decl.take(i as int + 1)));
                },
            }
            i = i + 1;
        }
        assert(decl.take(decl.len() as int) == decl);
        lints
    }

    /// The feature names the table was built with; flag generation does not
    /// read them.
    pub fn required_features(&self) -> (r: &Option<Vec<String>>)
        ensures
            self.features() == match r {
                Some(v) => Some(strings_view(v@)),
                None => None::<Seq<Seq<char>>>,
            },
    {
        &self.required_features
    }

    /// Records `name` at severity `kind`, replacing an earlier severity of it.
    fn record(&mut self, name: &String, kind: LintKind)
        requires
            old(self).wf(),
        ensures
            final(self)@ == with_entry(old(self)@, name@, kind),
            final(self).wf(),
            final(self).features() == old(self).features(),
    {
        let ghost es = self@;
        let ghost target = with_entry(es, name@, kind);
        let mut found = false;
        let mut i: usize = 0;
        while i < self.lints.len()
            invariant
                es == old(self)@,
                names_unique(es),
                self.required_features == old(self).required_features,
                self@.len() == es.len(),
                i <= es.len(),
                found == has_name(es.take(i as int), name@),
                forall|j: int| 0 <= j < i ==> #[trigger] self@[j] == (
                if es[j].0 == name@ { (name@, kind) } else { es[j] }),
                forall|j: int| i <= j < es.len() ==> #[trigger] self@[j] == es[j],
            decreases es.len() - i,
        {
            proof {
                assert(es.take(i as int + 1).drop_last() == es.take(i as int));
                if has_name(es.take(i as int + 1), name@) {
                    let w = choose|w: int| 0 <= w < i + 1 && #[trigger] es.take(i as int + 1)[w].0 == name@;
                    if w < i {
                        assert(es.take(i as int)[w].0 == name@);
                    }
                }
                if has_name(es.take(i as int), name@) {
                    let w = choose|w: int| 0 <= w < i && #[trigger] es.take(i as int)[w].0 == name@;
                    assert(es.take(i as int + 1)[w].0 == name@);
                }
            }
            assert(self@[i as int] == es[i as int]);
            assert(self@[i as int].0 == self.lints@[i as int].0@);
            let ghost cur = self@;
            if self.lints[i].0 == *name {
                self.lints[i] = (name.clone(), kind);
                found = true;
                assert(self@ =~= cur.update(i as int, (name@, kind)));
                assert(es.take(i as int + 1)[i as int].0 == name@);
            } else {
                assert(es.take(i as int + 1)[i as int].0 != name@);
            }
            i = i + 1;
        }
        assert(es.take(es.len() as int) == es);
        if found {
            assert(self@ =~= target);
        } else {
            let ghost cur = self@;
            self.lints.push((name.clone(), kind));
            assert(self@ =~= cur.push((name@, kind)));
            assert(self@ =~= target);
        }
        proof {
            Self::lemma_with_entry_unique(es, name@, kind);
        }
    }

    /// Whether the table holds `name`, at any severity.
    fn contains_name(&self, name: &String) -> (r: bool)
        ensures
            r == has_name(self@, name@),
    {
        let mut i: usize = 0;
        while i < self.lints.len()
            invariant
                i <= self@.len(),
                forall|j: int| 0 <= j < i ==> #[trigger] self@[j].0 != name@,
            decreases self@.len() - i,
        {
            assert(self@[i as int].0 == self.lints@[i as int].0@);
            if self.lints[i].0 == *name {
                return true;
            }
            i = i + 1;
        }
        false
    }

    /// The names at severity `kind` of this table merged over `other`, joined
    /// by commas.
    fn joined_names(&self, other: &Lints, kind: LintKind) -> (r: String)
        ensures
            r@ == joined(merged_bucket(self@, other@, kind)),
    {
        let mut acc = String::new();
        let ghost mut names: Seq<Seq<char>> = seq![];
        let mut none_yet = true;
        assert(names =~= bucket(self@.take(0), kind, seq![]));
        let mut i: usize = 0;
        while i < self.lints.len()
            invariant
                i <= self@.len(),
                names == bucket(self@.take(i as int), kind, seq![]),
                acc@ == joined(names),
                none_yet == (names.len() == 0),
            decreases self@.len() - i,
        {
            proof {
                lemma_bucket_step(self@, i as int, kind, seq![]);
            }
            assert(self@[i as int] == (self.lints@[i as int].0@, self.lints@[i as int].1));
            if self.lints[i].1 == kind {
                proof {
                    lemma_joined_push(names, self@[i as int].0);
                    names = names.push(self@[i as int].0);
                }
                if !none_yet {
                    acc = acc.concat(",");
                }
                acc = acc.concat(self.lints[i].0.as_str());
                none_yet = false;
            }
            i = i + 1;
        }
        assert(self@.take(self@.len() as int) =~= self@);
        let ghost mine = names;
        assert(names =~= mine + bucket(other@.take(0), kind, self@));
        let mut j: usize = 0;
        while j < other.lints.len()
            invariant
                j <= other@.len(),
                mine == bucket(self@, kind, seq![]),
                names == mine + bucket(other@.take(j as int), kind, self@),
                acc@ == joined(names),
                none_yet == (names.len() == 0),
            decreases other@.len() - j,
        {
            proof {
                lemma_bucket_step(other@, j as int, kind, self@);
            }
            assert(other@[j as int] == (other.lints@[j as int].0@, other.lints@[j as int].1));
            if other.lints[j].1 == kind && !self.contains_name(&other.lints[j].0) {
                proof {
                    lemma_joined_push(names, other@[j as int].0);
                    names = names.push(other@[j as int].0);
                }
                if !none_yet {
                    acc = acc.concat(",");
                }
                acc = acc.concat(other.lints[j].0.as_str());
                none_yet = false;
            }
            assert(names =~= mine + bucket(other@.take(j as int + 1), kind, self@));
            j = j + 1;
        }
        assert(other@.take(other@.len() as int) =~= other@);
        acc
    }

    /// Appends the flag of `kind` and `list` to `cmd`, unless `list` is empty.
    fn push_flag(cmd: &mut Vec<String>, kind: LintKind, list: String)
        ensures
            strings_view(final(cmd)@) == strings_view(old(cmd)@) + flag_pair(kind, list@),
    {
        if !list.as_str().is_empty() {
            let ghost before = cmd@;
            let flag = kind.flag();
            let ghost lv = list@;
            cmd.push(flag);
            cmd.push(list);
            assert(strings_view(cmd@) =~= strings_view(before) + flag_pair(kind, lv));
        } else {
            assert(strings_view(cmd@) =~= strings_view(old(cmd)@) + flag_pair(kind, list@));
        }
    }

    /// Appends to `cmd` the flags for this table merged over `package_lints`:
    /// for allow, warn and deny in that order, where the names at that
    /// severity are not empty, the marker (`-A`, `-W`, `-D`) and then the
    /// names joined by commas. A name of this table is taken at its severity
    /// here and not from `package_lints` at all. The tokens appended depend on
    /// the two tables' contents alone.
    pub fn set_flags(&self, cmd: &mut Vec<String>, package_lints: &Lints)
        ensures
            strings_view(final(cmd)@) == strings_view(old(cmd)@) + lint_flags(
                self@,
                package_lints@,
            ),
    {
        let allow = self.joined_names(package_lints, LintKind::Allow);
        Self::push_flag(cmd, LintKind::Allow, allow);
        let warn = self.joined_names(package_lints, LintKind::Warn);
        Self::push_flag(cmd, LintKind::Warn, warn);
        let deny = self.joined_names(package_lints, LintKind::Deny);
        Self::push_flag(cmd, LintKind::Deny, deny);
        assert(strings_view(cmd@) =~= strings_view(old(cmd)@) + lint_flags(self@, package_lints@));
    }

}

} // verus!
