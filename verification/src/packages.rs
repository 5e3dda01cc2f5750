//! The dependency listing: which packages a `cargo tree` output names,
//! kept as an ordered set, and what of it counts as external or as a
//! duplicate.
use vstd::prelude::*;
use vstd::string::*;
use crate::chars::{cut, less, next_token, split_lines};
use crate::table::contains;
use crate::text::{chars_of, string_of};

verus! {

use crate::chars::{after_token, lemma_text_order, lines, text_less, token, views};
use crate::table::{listed, names_ascend, texts};

/// A package: name and version.
pub type Package = (Seq<char>, Seq<char>);

/// The package that a line of the listing names: a name, then a version
/// that starts with `v`; anything may follow.
pub open spec fn package_of(line: Seq<char>) -> Option<Package> {
    let name = token(line);
    let version = token(after_token(line));
    if name.len() > 0 && version.len() > 0 && version[0] == 'v' {
        Some((name, version.drop_first()))
    } else {
        None
    }
}

/// The packages that the first `n` lines name.
pub open spec fn packages_of(all: Seq<Seq<char>>, n: int) -> Set<Package>
    decreases n,
{
    if n <= 0 {
        Set::empty()
    } else {
        match package_of(all[n - 1]) {
            Some(p) => packages_of(all, n - 1).insert(p),
            None => packages_of(all, n - 1),
        }
    }
}

/// The packages that a listing names.
pub open spec fn tree_packages(tree: Seq<char>) -> Set<Package> {
    packages_of(lines(tree), lines(tree).len() as int)
}

/// Packages are ordered by name, then version.
pub open spec fn package_less(a: Package, b: Package) -> bool {
    text_less(a.0, b.0) || (a.0 == b.0 && text_less(a.1, b.1))
}

/// The package order is strict and total.
pub proof fn lemma_package_order(a: Package, b: Package, c: Package)
    ensures
        !package_less(a, a),
        package_less(a, b) || package_less(b, a) || a == b,
        package_less(a, b) ==> !package_less(b, a),
        package_less(a, b) && package_less(b, c) ==> package_less(a, c),
{
    lemma_text_order(a.0, b.0, c.0);
    lemma_text_order(a.1, b.1, c.1);
    lemma_text_order(b.0, a.0, c.0);
    lemma_text_order(b.0, c.0, a.0);
    lemma_text_order(b.1, a.1, c.1);
}

/// Strictly ascending.
pub open spec fn ascending(list: Seq<Package>) -> bool {
    forall|i: int, j: int| 0 <= i < j < list.len() ==> package_less(#[trigger] list[i], #[trigger] list[j])
}

/// The packages of a list whose names are not among the members.
pub open spec fn external(list: Seq<Package>, members: Seq<String>) -> Seq<Package>
    decreases list.len(),
{
    if list.len() == 0 {
        Seq::empty()
    } else {
        let front = external(list.drop_last(), members);
        if listed(members, list.last().0) {
            front
        } else {
            front.push(list.last())
        }
    }
}

/// Consecutive packages of one name, gathered with their versions.
pub open spec fn by_name(list: Seq<Package>) -> Seq<(Seq<char>, Seq<Seq<char>>)>
    decreases list.len(),
{
    if list.len() == 0 {
        Seq::empty()
    } else {
        let front = by_name(list.drop_last());
        let e = list.last();
        if front.len() > 0 && front.last().0 == e.0 {
            front.drop_last().push((e.0, front.last().1.push(e.1)))
        } else {
            front.push((e.0, seq![e.1]))
        }
    }
}

/// The names that come with more than one version.
pub open spec fn several(groups: Seq<(Seq<char>, Seq<Seq<char>>)>) -> Seq<(Seq<char>, Seq<Seq<char>>)>
    decreases groups.len(),
{
    if groups.len() == 0 {
        Seq::empty()
    } else {
        let front = several(groups.drop_last());
        if groups.last().1.len() > 1 {
            front.push(groups.last())
        } else {
            front
        }
    }
}

/// Gathered names ascend.
pub open spec fn groups_ascend(groups: Seq<(Seq<char>, Seq<Seq<char>>)>) -> bool {
    forall|i: int, j: int|
        0 <= i < j < groups.len() ==> text_less((#[trigger] groups[i]).0, (#[trigger] groups[j]).0)
}

proof fn lemma_external_ascends(list: Seq<Package>, members: Seq<String>, x: Package)
    requires
        ascending(list),
        forall|j: int| 0 <= j < list.len() ==> package_less(#[trigger] list[j], x),
    ensures
        ascending(external(list, members)),
        forall|i: int|
            0 <= i < external(list, members).len() ==> package_less(
                #[trigger] external(list, members)[i],
                x,
            ),
    decreases list.len(),
{
    if list.len() > 0 {
        let front = list.drop_last();
        assert forall|j: int| 0 <= j < front.len() implies package_less(
            #[trigger] front[j],
            list.last(),
        ) && package_less(front[j], x) by {
            assert(front[j] == list[j]);
        }
        assert(ascending(front)) by {
            assert forall|i: int, j: int| 0 <= i < j < front.len() implies package_less(
                #[trigger] front[i],
                #[trigger] front[j],
            ) by {
                assert(package_less(list[i], list[j]));
            }
        }
        lemma_external_ascends(front, members, list.last());
        lemma_external_ascends(front, members, x);
        assert(package_less(list[list.len() - 1], x));
    }
}

proof fn lemma_by_name_ascends(list: Seq<Package>)
    requires
        ascending(list),
    ensures
        groups_ascend(by_name(list)),
        list.len() > 0 ==> by_name(list).len() > 0 && by_name(list).last().0 == list.last().0,
    decreases list.len(),
{
    if list.len() > 0 {
        let rest = list.drop_last();
        assert(ascending(rest)) by {
            assert forall|i: int, j: int| 0 <= i < j < rest.len() implies package_less(
                #[trigger] rest[i],
                #[trigger] rest[j],
            ) by {
                assert(package_less(list[i], list[j]));
            }
        }
        lemma_by_name_ascends(rest);
        let front = by_name(rest);
        let e = list.last();
        if front.len() > 0 && front.last().0 != e.0 {
            assert(rest.last() == list[list.len() - 2]);
            assert(package_less(list[list.len() - 2], list[list.len() - 1]));
            assert forall|i: int| 0 <= i < front.len() implies text_less(
                (#[trigger] front[i]).0,
                e.0,
            ) by {
                lemma_text_order(front[i].0, front.last().0, e.0);
                if i < front.len() - 1 {
                    assert(text_less(front[i].0, front[front.len() - 1].0));
                }
            }
        }
    }
}

proof fn lemma_several_ascends(groups: Seq<(Seq<char>, Seq<Seq<char>>)>, x: Seq<char>)
    requires
        groups_ascend(groups),
        forall|j: int| 0 <= j < groups.len() ==> text_less((#[trigger] groups[j]).0, x),
    ensures
        groups_ascend(several(groups)),
        forall|i: int|
            0 <= i < several(groups).len() ==> text_less((#[trigger] several(groups)[i]).0, x),
    decreases groups.len(),
{
    if groups.len() > 0 {
        let front = groups.drop_last();
        assert forall|j: int| 0 <= j < front.len() implies text_less(
            (#[trigger] front[j]).0,
            groups.last().0,
        ) && text_less(front[j].0, x) by {
            assert(front[j] == groups[j]);
        }
        assert(groups_ascend(front)) by {
            assert forall|i: int, j: int| 0 <= i < j < front.len() implies text_less(
                (#[trigger] front[i]).0,
                (#[trigger] front[j]).0,
            ) by {
                assert(text_less(groups[i].0, groups[j].0));
            }
        }
        lemma_several_ascends(front, groups.last().0);
        lemma_several_ascends(front, x);
        assert(text_less(groups[groups.len() - 1].0, x));
    }
}

/// Duplicated names ascend.
proof fn lemma_duplicates_ascend(list: Seq<Package>, members: Seq<String>)
    requires
        ascending(list),
    ensures
        groups_ascend(several(by_name(external(list, members)))),
{
    if list.len() > 0 {
        let front = list.drop_last();
        assert(ascending(front)) by {
            assert forall|i: int, j: int| 0 <= i < j < front.len() implies package_less(
                #[trigger] front[i],
                #[trigger] front[j],
            ) by {
                assert(package_less(list[i], list[j]));
            }
        }
        assert forall|j: int| 0 <= j < front.len() implies package_less(
            #[trigger] front[j],
            list.last(),
        ) by {
            assert(package_less(list[j], list[list.len() - 1]));
        }
        lemma_external_ascends(front, members, list.last());
    }
    let ext = external(list, members);
    lemma_by_name_ascends(ext);
    let groups = by_name(ext);
    if groups.len() > 0 {
        let front = groups.drop_last();
        assert(groups_ascend(front)) by {
            assert forall|i: int, j: int| 0 <= i < j < front.len() implies text_less(
                (#[trigger] front[i]).0,
                (#[trigger] front[j]).0,
            ) by {
                assert(text_less(groups[i].0, groups[j].0));
            }
        }
        assert forall|j: int| 0 <= j < front.len() implies text_less(
            (#[trigger] front[j]).0,
            groups.last().0,
        ) by {
            assert(text_less(groups[j].0, groups[groups.len() - 1].0));
        }
        lemma_several_ascends(front, groups.last().0);
    }
}

/// Names with versions, as texts.
pub open spec fn group_texts(groups: Seq<(String, Vec<String>)>) -> Seq<(Seq<char>, Seq<Seq<char>>)> {
    groups.map_values(|g: (String, Vec<String>)| (g.0@, texts(g.1@)))
}

/// An ordered set of packages.
pub struct PackageSet {
    items: Vec<(Vec<char>, Vec<char>)>,
}

impl PackageSet {
    /// The packages, ascending.
    pub closed spec fn list(&self) -> Seq<Package> {
        self.items@.map_values(|p: (Vec<char>, Vec<char>)| (p.0@, p.1@))
    }

    /// The packages are in strict order, so each occurs once.
    pub open spec fn wf(&self) -> bool {
        ascending(self.list())
    }

    /// The set.
    pub open spec fn set(&self) -> Set<Package> {
        self.list().to_set()
    }

    /// The empty set.
    pub fn new() -> (s: PackageSet)
        ensures
            s.wf(),
            s.set() == Set::<Package>::empty(),
            s.list() == Seq::<Package>::empty(),
    {
        let s = PackageSet { items: Vec::new() };
        proof {
            assert(s.list() =~= Seq::<Package>::empty());
            assert(s.set() =~= Set::<Package>::empty());
        }
        s
    }

    /// Number of packages.
    pub fn len(&self) -> (r: usize)
        ensures
            r == self.list().len(),
    {
        self.items.len()
    }

    /// Whether there is no package.
    pub fn is_empty(&self) -> (r: bool)
        ensures
            r == (self.list().len() == 0),
    {
        self.items.len() == 0
    }

    /// Whether a package is in the set.
    pub fn contains(&self, name: &str, version: &str) -> (r: bool)
        ensures
            r == self.set().contains((name@, version@)),
    {
        let n = chars_of(name);
        let v = chars_of(version);
        let ghost p = (name@, version@);
        let mut i: usize = 0;
        while i < self.items.len()
            invariant
                i <= self.items@.len(),
                n@ == name@,
                v@ == version@,
                p == (name@, version@),
                forall|j: int| 0 <= j < i ==> #[trigger] self.list()[j] != p,
            decreases self.items@.len() - i,
        {
            proof {
                lemma_text_order(self.items@[i as int].0@, n@, n@);
                lemma_text_order(self.items@[i as int].1@, v@, v@);
            }
            if !less(&self.items[i].0, &n) && !less(&n, &self.items[i].0) && !less(
                &self.items[i].1,
                &v,
            ) && !less(&v, &self.items[i].1) {
                proof {
                    assert(self.list()[i as int] == p);
                }
                return true;
            }
            i = i + 1;
        }
        false
    }

    /// Add a package.
    pub fn insert(&mut self, name: Vec<char>, version: Vec<char>)
        requires
            old(self).wf(),
        ensures
            final(self).wf(),
            final(self).set() == old(self).set().insert((name@, version@)),
    {
        let ghost p = (name@, version@);
        let ghost before = self.list();
        let mut i: usize = 0;
        while i < self.items.len() && (less(&self.items[i].0, &name) || (!less(
            &name,
            &self.items[i].0,
        ) && less(&self.items[i].1, &version)))
            invariant
                i <= self.items@.len(),
                self.list() == before,
                ascending(before),
                p == (name@, version@),
                forall|j: int| 0 <= j < i ==> package_less(#[trigger] before[j], p),
            decreases self.items@.len() - i,
        {
            proof {
                lemma_text_order(before[i as int].0, name@, name@);
            }
            i = i + 1;
        }
        if i < self.items.len() && !less(&name, &self.items[i].0) && !less(
            &version,
            &self.items[i].1,
        ) {
            proof {
                lemma_text_order(before[i as int].0, name@, name@);
                lemma_text_order(before[i as int].1, version@, version@);
                assert(before[i as int] == p);
                assert(before.to_set().contains(p));
                assert(before.to_set().insert(p) =~= before.to_set());
            }
            return ;
        }
        proof {
            if i < before.len() {
                lemma_text_order(before[i as int].0, name@, name@);
                lemma_text_order(before[i as int].1, version@, version@);
                assert(package_less(p, before[i as int]));
            }
        }
        self.items.insert(i, (name, version));
        proof {
            let after = self.list();
            assert(after =~= before.insert(i as int, p));
            assert forall|a: int, b: int| 0 <= a < b < after.len() implies package_less(
                #[trigger] after[a],
                #[trigger] after[b],
            ) by {
                let x = if a < i {
                    before[a]
                } else if a == i {
                    p
                } else {
                    before[a - 1]
                };
                let y = if b < i {
                    before[b]
                } else if b == i {
                    p
                } else {
                    before[b - 1]
                };
                assert(after[a] == x);
                assert(after[b] == y);
                if b > i && a <= i {
                    if a == i {
                        if b - 1 > i {
                            lemma_package_order(p, before[i as int], before[b - 1]);
                        }
                    }
                }
            }
            assert forall|q: Package| #[trigger]
                after.to_set().contains(q) <==> before.to_set().insert(p).contains(q) by {
                if before.contains(q) {
                    let k = choose|k: int| 0 <= k < before.len() && before[k] == q;
                    if k < i {
                        assert(after[k] == q);
                    } else {
                        assert(after[k + 1] == q);
                    }
                }
                if q == p {
                    assert(after[i as int] == q);
                }
                if after.contains(q) && q != p {
                    let k = choose|k: int| 0 <= k < after.len() && after[k] == q;
                    if k < i {
                        assert(before[k] == q);
                    } else {
                        assert(before[k - 1] == q);
                    }
                }
            }
            assert(self.set() =~= before.to_set().insert(p));
        }
    }

    /// Add every package that a listing names.
    pub fn add_tree(&mut self, tree: &str)
        requires
            old(self).wf(),
        ensures
            final(self).wf(),
            final(self).set() == old(self).set().union(tree_packages(tree@)),
    {
        let v = chars_of(tree);
        let all = split_lines(&v);
        let ghost texts = lines(tree@);
        let mut i: usize = 0;
        proof {
            assert(self.set() =~= old(self).set().union(packages_of(texts, 0)));
            assert(all@.len() == views(all@).len());
        }
        while i < all.len()
            invariant
                i <= all@.len(),
                texts == views(all@),
                self.wf(),
                self.set() == old(self).set().union(packages_of(texts, i as int)),
            decreases all@.len() - i,
        {
            let ghost line = texts[i as int];
            proof {
                assert(line == all@[i as int]@);
            }
            let (name, rest) = next_token(&all[i]);
            let (version, _tail) = next_token(&rest);
            if name.len() > 0 && version.len() > 0 && version[0] == 'v' {
                let bare = cut(&version, 1, version.len());
                proof {
                    assert(bare@ =~= version@.drop_first());
                }
                let ghost p = (name@, bare@);
                self.insert(name, bare);
                proof {
                    assert(package_of(line) == Some(p));
                    assert(old(self).set().union(packages_of(texts, i as int)).insert(p)
                        =~= old(self).set().union(packages_of(texts, i + 1)));
                }
            } else {
                proof {
                    assert(package_of(line) is None);
                }
            }
            i = i + 1;
        }
    }

    /// What counts of the set: the number of external packages, and the
    /// external names that come in several versions.
    pub fn summary(&self, members: &Vec<String>) -> (r: (u64, Vec<(String, Vec<String>)>))
        ensures
            r.0 == external(self.list(), members@).len(),
            group_texts(r.1@) == several(by_name(external(self.list(), members@))),
            self.wf() ==> names_ascend(r.1@),
    {
        let mut count: u64 = 0;
        let mut groups: Vec<(String, Vec<String>)> = Vec::new();
        let ghost all = self.list();
        let mut i: usize = 0;
        proof {
            assert(all.take(0) =~= Seq::<Package>::empty());
            assert(group_texts(groups@) =~= by_name(external(all.take(0), members@)));
        }
        while i < self.items.len()
            invariant
                i <= self.items@.len(),
                all == self.list(),
                count == external(all.take(i as int), members@).len(),
                count <= i,
                group_texts(groups@) == by_name(external(all.take(i as int), members@)),
            decreases self.items@.len() - i,
        {
            let ghost e = all[i as int];
            let ghost ext = external(all.take(i as int), members@);
            proof {
                assert(all.take(i + 1).drop_last() =~= all.take(i as int));
                assert(all.take(i + 1).last() == e);
            }
            let name = string_of(self.items[i].0.as_slice(), 0, self.items[i].0.len());
            let version = string_of(self.items[i].1.as_slice(), 0, self.items[i].1.len());
            proof {
                assert(name@ =~= e.0);
                assert(version@ =~= e.1);
            }
            if !contains(members, name.as_str()) {
                count = count + 1;
                let ghost before = groups@;
                proof {
                    assert(ext.push(e).drop_last() =~= ext);
                    assert(ext.push(e).last() == e);
                    assert(group_texts(before).len() == before.len());
                }
                let n: usize = groups.len();
                if n > 0 && same_name(&groups[n - 1].0, &name) {
                    let popped = groups.pop();
                    match popped {
                        Some(g) => {
                            let (gname, mut versions) = g;
                            let ghost old_versions = versions@;
                            versions.push(version);
                            groups.push((gname, versions));
                            proof {
                                assert(texts(versions@) =~= texts(old_versions).push(e.1));
                                assert(group_texts(before).last() == (gname@, texts(old_versions)));
                                assert(group_texts(groups@) =~= group_texts(
                                    before,
                                ).drop_last().push((e.0, texts(old_versions).push(e.1))));
                            }
                        },
                        None => {},
                    }
                } else {
                    let versions: Vec<String> = vec![version];
                    groups.push((name, versions));
                    proof {
                        assert(texts(versions@) =~= seq![e.1]);
                        if n > 0 {
                            assert(group_texts(before).last().0 == before[n - 1].0@);
                        }
                        assert(group_texts(groups@) =~= group_texts(before).push(
                            (e.0, seq![e.1]),
                        ));
                    }
                }
            }
            i = i + 1;
        }
        proof {
            assert(all.take(i as int) =~= all);
        }
        let kept = keep_several(groups);
        proof {
            if self.wf() {
                lemma_duplicates_ascend(self.list(), members@);
                let shown = group_texts(kept@);
                assert forall|i: int, j: int| 0 <= i < j < kept@.len() implies text_less(
                    (#[trigger] kept@[i]).0@,
                    (#[trigger] kept@[j]).0@,
                ) by {
                    assert(shown[i].0 == kept@[i].0@ && shown[j].0 == kept@[j].0@);
                }
            }
        }
        (count, kept)
    }
}

/// Whether two names are equal.
fn same_name(a: &String, b: &String) -> (r: bool)
    ensures
        r == (a@ == b@),
{
    crate::text::same(a.as_str(), b.as_str())
}

/// A copy of a list of strings.
fn copy_list(list: &Vec<String>) -> (r: Vec<String>)
    ensures
        texts(r@) == texts(list@),
{
    let mut out: Vec<String> = Vec::new();
    let mut i: usize = 0;
    while i < list.len()
        invariant
            i <= list@.len(),
            texts(out@) == texts(list@).take(i as int),
        decreases list@.len() - i,
    {
        let s = list[i].as_str().to_owned();
        let ghost before = out@;
        out.push(s);
        proof {
            assert(texts(out@) =~= texts(before).push(s@));
            assert(texts(list@).take(i + 1) =~= texts(list@).take(i as int).push(s@));
        }
        i = i + 1;
    }
    proof {
        assert(texts(list@).take(i as int) =~= texts(list@));
    }
    out
}

/// The groups with more than one version.
fn keep_several(groups: Vec<(String, Vec<String>)>) -> (r: Vec<(String, Vec<String>)>)
    ensures
        group_texts(r@) == several(group_texts(groups@)),
{
    let mut out: Vec<(String, Vec<String>)> = Vec::new();
    let ghost all = group_texts(groups@);
    let mut i: usize = 0;
    proof {
        assert(all.take(0) =~= Seq::<(Seq<char>, Seq<Seq<char>>)>::empty());
        assert(group_texts(out@) =~= several(all.take(0)));
    }
    while i < groups.len()
        invariant
            i <= groups@.len(),
            all == group_texts(groups@),
            group_texts(out@) == several(all.take(i as int)),
        decreases groups@.len() - i,
    {
        proof {
            assert(all.take(i + 1).drop_last() =~= all.take(i as int));
            assert(all.take(i + 1).last() == all[i as int]);
            assert(all[i as int].1.len() == groups@[i as int].1@.len());
        }
        if groups[i].1.len() > 1 {
            let name = groups[i].0.as_str().to_owned();
            let versions = copy_list(&groups[i].1);
            let ghost before = group_texts(out@);
            out.push((name, versions));
            proof {
                assert(group_texts(out@) =~= before.push((name@, texts(versions@))));
            }
        }
        i = i + 1;
    }
    proof {
        assert(all.take(i as int) =~= all);
    }
    out
}

/// The packages that a `cargo tree` listing names.
pub fn parse_tree_packages(tree: &str) -> (s: PackageSet)
    ensures
        s.wf(),
        s.set() == tree_packages(tree@),
{
    let mut s = PackageSet::new();
    s.add_tree(tree);
    proof {
        assert(Set::<Package>::empty().union(tree_packages(tree@)) =~= tree_packages(tree@));
    }
    s
}

} // verus!
