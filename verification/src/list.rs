//! Assembly of the advertised reference list: the references of every
//! candidate VCS server are merged in try order, the first authoritative
//! server winning each reference, and servers that disagree on a reference
//! being recorded.

use vstd::prelude::*;

use crate::strings::str_eq;

verus! {

/// One reference a VCS server advertises.
pub struct RemoteRef {
    /// The reference string.
    pub refstr: String,
    /// The object id the server has for it.
    pub oid: String,
}

/// The mathematical shape of an advertised reference.
pub struct RemoteRefView {
    pub refstr: Seq<char>,
    pub oid: Seq<char>,
}

impl View for RemoteRef {
    type V = RemoteRefView;

    open spec fn view(&self) -> RemoteRefView {
        RemoteRefView { refstr: self.refstr@, oid: self.oid@ }
    }
}

impl DeepView for RemoteRef {
    type V = RemoteRefView;

    open spec fn deep_view(&self) -> RemoteRefView {
        self.view()
    }
}

impl RemoteRef {
    /// An owned copy of the reference.
    pub fn duplicate(&self) -> (r: RemoteRef)
        ensures
            r@ == self@,
    {
        RemoteRef { refstr: self.refstr.clone(), oid: self.oid.clone() }
    }
}

/// The list advertises this reference.
pub open spec fn refs_have(s: Seq<RemoteRefView>, refstr: Seq<char>) -> bool {
    exists|i: int| 0 <= i < s.len() && (#[trigger] s[i]).refstr == refstr
}

/// The list advertises this reference at this object id.
pub open spec fn refs_have_pair(s: Seq<RemoteRefView>, refstr: Seq<char>, oid: Seq<char>) -> bool {
    exists|i: int| 0 <= i < s.len() && (#[trigger] s[i]).refstr == refstr && s[i].oid == oid
}

/// Each reference appears once in the list.
pub open spec fn refs_unique(s: Seq<RemoteRefView>) -> bool {
    forall|i: int, j: int| 0 <= i < j < s.len() ==> s[i].refstr != s[j].refstr
}

/// The entry won by try order: the earliest server that advertises the
/// reference at all advertises it at this object id.
pub open spec fn first_server_wins(
    lists: Seq<Seq<RemoteRefView>>,
    refstr: Seq<char>,
    oid: Seq<char>,
) -> bool {
    exists|i: int|
        0 <= i < lists.len() && refs_have_pair(#[trigger] lists[i], refstr, oid) && forall|i2: int|
            0 <= i2 < i ==> !refs_have(lists[i2], refstr)
}

fn find_ref(merged: &Vec<RemoteRef>, refstr: &str) -> (r: Option<usize>)
    ensures
        match r {
            Some(k) => k < merged@.len() && merged.deep_view()[k as int].refstr == refstr@,
            None => !refs_have(merged.deep_view(), refstr@),
        },
{
    let n = merged.len();
    let mut i: usize = 0;
    while i < n
        invariant
            i <= n,
            n == merged@.len(),
            forall|k: int| 0 <= k < i ==> (#[trigger] merged.deep_view()[k]).refstr != refstr@,
        decreases n - i,
    {
        assert(merged.deep_view()[i as int] == merged@[i as int]@);
        if str_eq(merged[i].refstr.as_str(), refstr) {
            return Some(i);
        }
        i += 1;
    }
    None
}

fn merge_one_server(
    merged: &mut Vec<RemoteRef>,
    disagreements: &mut Vec<RemoteRef>,
    list: &Vec<RemoteRef>,
)
    requires
        refs_unique(old(merged).deep_view()),
        refs_unique(list.deep_view()),
    ensures
        refs_unique(final(merged).deep_view()),
        forall|refstr: Seq<char>|
            #[trigger] refs_have(final(merged).deep_view(), refstr) <==> (refs_have(
                old(merged).deep_view(),
                refstr,
            ) || refs_have(list.deep_view(), refstr)),
        forall|k: int|
            0 <= k < final(merged).deep_view().len() ==> old(merged).deep_view().contains(
                #[trigger] final(merged).deep_view()[k],
            ) || (refs_have_pair(
                list.deep_view(),
                final(merged).deep_view()[k].refstr,
                final(merged).deep_view()[k].oid,
            ) && !refs_have(old(merged).deep_view(), final(merged).deep_view()[k].refstr)),
        forall|u: RemoteRefView|
            old(merged).deep_view().contains(u) ==> final(merged).deep_view().contains(u),
        forall|d: RemoteRefView|
            #[trigger] final(disagreements).deep_view().contains(d) ==> old(
                disagreements,
            ).deep_view().contains(d) || (refs_have_pair(list.deep_view(), d.refstr, d.oid)
                && exists|w: RemoteRefView|
                #[trigger] old(merged).deep_view().contains(w) && w.refstr == d.refstr && w.oid
                    != d.oid),
        forall|j: int|
            0 <= j < list.deep_view().len() ==> ((exists|w: RemoteRefView|
                #[trigger] old(merged).deep_view().contains(w) && w.refstr == (
                #[trigger] list.deep_view()[j]).refstr && w.oid != list.deep_view()[j].oid)
                ==> final(disagreements).deep_view().contains(list.deep_view()[j])),
{
    let n = list.len();
    let mut j: usize = 0;
    while j < n
        invariant
            j <= n,
            n == list@.len(),
            refs_unique(list.deep_view()),
            refs_unique(merged.deep_view()),
            forall|refstr: Seq<char>|
                #[trigger] refs_have(merged.deep_view(), refstr) <==> (refs_have(
                    old(merged).deep_view(),
                    refstr,
                ) || exists|k: int|
                    0 <= k < j && (#[trigger] list.deep_view()[k]).refstr == refstr),
            forall|k: int|
                0 <= k < merged.deep_view().len() ==> old(merged).deep_view().contains(
                    #[trigger] merged.deep_view()[k],
                ) || (refs_have_pair(
                    list.deep_view(),
                    merged.deep_view()[k].refstr,
                    merged.deep_view()[k].oid,
                ) && !refs_have(old(merged).deep_view(), merged.deep_view()[k].refstr)),
            forall|u: RemoteRefView|
                old(merged).deep_view().contains(u) ==> merged.deep_view().contains(u),
            forall|d: RemoteRefView|
                #[trigger] disagreements.deep_view().contains(d) ==> old(
                    disagreements,
                ).deep_view().contains(d) || (refs_have_pair(list.deep_view(), d.refstr, d.oid)
                    && exists|w: RemoteRefView|
                    #[trigger] old(merged).deep_view().contains(w) && w.refstr == d.refstr
                        && w.oid != d.oid),
            forall|u: RemoteRefView|
                old(disagreements).deep_view().contains(u) ==> disagreements.deep_view().contains(
                    u,
                ),
            forall|k: int|
                0 <= k < j ==> ((exists|w: RemoteRefView|
                    #[trigger] old(merged).deep_view().contains(w) && w.refstr == (
                    #[trigger] list.deep_view()[k]).refstr && w.oid != list.deep_view()[k].oid)
                    ==> disagreements.deep_view().contains(list.deep_view()[k])),
        decreases n - j,
    {
        let ghost entry = list.deep_view()[j as int];
        let ghost merged_before = merged.deep_view();
        let ghost disg_before = disagreements.deep_view();
        assert(list.deep_view()[j as int] == list@[j as int]@);
        match find_ref(merged, list[j].refstr.as_str()) {
            Some(k) => {
                if !str_eq(merged[k].oid.as_str(), list[j].oid.as_str()) {
                    let d = list[j].duplicate();
                    disagreements.push(d);
                    proof {
                        assert forall|x: int| 0 <= x < disagreements@.len() implies #[trigger]
                        disagreements.deep_view()[x] == disg_before.push(entry)[x] by {
                            if x < disg_before.len() {
                                assert(disagreements.deep_view()[x] == disg_before[x]);
                            } else {
                                assert(disagreements.deep_view()[x] == entry);
                            }
                        }
                        assert(disagreements.deep_view() =~= disg_before.push(entry));
                        assert(disagreements.deep_view()[disg_before.len() as int] == entry);
                        assert forall|u: RemoteRefView| disg_before.contains(u)
                            implies disagreements.deep_view().contains(u) by {
                            let ii = choose|ii: int|
                                0 <= ii < disg_before.len() && disg_before[ii] == u;
                            assert(disagreements.deep_view()[ii] == u);
                        }
                        // The winning entry disagrees with this one, and it
                        // entered before this list: one server does not
                        // advertise a reference twice.
                        let w = merged_before[k as int];
                        assert(merged_before.contains(w));
                        assert(w.refstr == entry.refstr && w.oid != entry.oid);
                        assert(refs_have_pair(list.deep_view(), entry.refstr, entry.oid)) by {
                            assert(list.deep_view()[j as int] == entry);
                        }
                        if !old(merged).deep_view().contains(w) {
                            assert(refs_have_pair(list.deep_view(), w.refstr, w.oid));
                            let a = choose|a: int|
                                0 <= a < list.deep_view().len()
                                    && (#[trigger] list.deep_view()[a]).refstr == w.refstr
                                    && list.deep_view()[a].oid == w.oid;
                            assert(a != j);
                            assert(list.deep_view()[a].refstr == list.deep_view()[j as int].refstr);
                            assert(false);
                        }
                        assert forall|d: RemoteRefView|
                            #[trigger] disagreements.deep_view().contains(d) implies disg_before
                            .contains(d) || d == entry by {
                            let ii = choose|ii: int|
                                0 <= ii < disagreements.deep_view().len()
                                    && disagreements.deep_view()[ii] == d;
                            if ii < disg_before.len() {
                                assert(disg_before[ii] == d);
                            }
                        }
                    }
                }
                proof {
                    // The winner stays; whoever held the reference first keeps it.
                    assert(refs_have(merged_before, entry.refstr)) by {
                        assert(merged_before[k as int].refstr == entry.refstr);
                    }
                    // When the object ids agree, no other earlier entry for
                    // this reference can disagree: references are unique.
                    assert forall|w: RemoteRefView|
                        #[trigger] old(merged).deep_view().contains(w) && w.refstr == entry.refstr
                            implies w == merged_before[k as int] by {
                        assert(merged_before.contains(w));
                        let wi = choose|wi: int|
                            0 <= wi < merged_before.len() && merged_before[wi] == w;
                        if wi != k {
                            assert(merged_before[wi].refstr != merged_before[k as int].refstr);
                        }
                    }
                    assert forall|refstr: Seq<char>| #[trigger] refs_have(
                        merged.deep_view(),
                        refstr,
                    ) <==> (refs_have(old(merged).deep_view(), refstr) || exists|k2: int|
                        0 <= k2 < j + 1 && (#[trigger] list.deep_view()[k2]).refstr
                            == refstr) by {
                        if refstr == entry.refstr {
                            assert(list.deep_view()[j as int].refstr == refstr);
                        }
                    }
                }
            },
            None => {
                let m = list[j].duplicate();
                merged.push(m);
                proof {
                    assert forall|x: int| 0 <= x < merged@.len() implies #[trigger] merged
                        .deep_view()[x] == merged_before.push(entry)[x] by {
                        if x < merged_before.len() {
                            assert(merged.deep_view()[x] == merged_before[x]);
                        } else {
                            assert(merged.deep_view()[x] == entry);
                        }
                    }
                    assert(merged.deep_view() =~= merged_before.push(entry));
                    assert(merged.deep_view()[merged_before.len() as int] == entry);
                    assert forall|u: RemoteRefView| merged_before.contains(u) implies merged
                        .deep_view().contains(u) by {
                        let ii = choose|ii: int|
                            0 <= ii < merged_before.len() && merged_before[ii] == u;
                        assert(merged.deep_view()[ii] == u);
                    }
                    assert(refs_have_pair(list.deep_view(), entry.refstr, entry.oid)) by {
                        assert(list.deep_view()[j as int] == entry);
                    }
                    // Nothing earlier held this reference at all, so nothing
                    // earlier can disagree about it.
                    assert forall|w: RemoteRefView|
                        #[trigger] old(merged).deep_view().contains(w) implies w.refstr
                        != entry.refstr by {
                        if w.refstr == entry.refstr {
                            assert(merged_before.contains(w));
                            let wi = choose|wi: int|
                                0 <= wi < merged_before.len() && merged_before[wi] == w;
                            assert(refs_have(merged_before, entry.refstr));
                        }
                    }
                    assert forall|p: int, q: int|
                        0 <= p < q < merged.deep_view().len() implies merged.deep_view()[p].refstr
                        != merged.deep_view()[q].refstr by {
                        if q == merged_before.len() {
                            assert(merged.deep_view()[q] == entry);
                            assert(merged.deep_view()[p] == merged_before[p]);
                            if merged_before[p].refstr == entry.refstr {
                                assert(refs_have(merged_before, entry.refstr));
                            }
                        } else {
                            assert(merged.deep_view()[p] == merged_before[p]);
                            assert(merged.deep_view()[q] == merged_before[q]);
                        }
                    }
                    assert forall|refstr: Seq<char>| #[trigger] refs_have(
                        merged.deep_view(),
                        refstr,
                    ) implies (refs_have(old(merged).deep_view(), refstr) || exists|k2: int|
                        0 <= k2 < j + 1 && (#[trigger] list.deep_view()[k2]).refstr
                            == refstr) by {
                        let ii = choose|ii: int|
                            0 <= ii < merged.deep_view().len()
                                && (#[trigger] merged.deep_view()[ii]).refstr == refstr;
                        if ii < merged_before.len() {
                            assert(refs_have(merged_before, refstr));
                        } else {
                            assert(list.deep_view()[j as int].refstr == refstr);
                        }
                    }
                    assert forall|refstr: Seq<char>|
                        (refs_have(old(merged).deep_view(), refstr) || exists|k2: int|
                            0 <= k2 < j + 1 && (#[trigger] list.deep_view()[k2]).refstr
                                == refstr) implies #[trigger] refs_have(
                        merged.deep_view(),
                        refstr,
                    ) by {
                        if refs_have(merged_before, refstr) {
                            let ii = choose|ii: int|
                                0 <= ii < merged_before.len()
                                    && (#[trigger] merged_before[ii]).refstr == refstr;
                            assert(merged.deep_view()[ii].refstr == refstr);
                        } else {
                            assert(merged.deep_view()[merged_before.len() as int].refstr
                                == refstr);
                        }
                    }
                }
            },
        }
        j += 1;
    }
}

/// Merge the reference lists of the candidate servers, in try order: the
/// first server to advertise a reference wins it, and a later server that
/// advertises the same reference at another object id is recorded as a
/// disagreement.
pub fn merge_server_refs(lists: &Vec<Vec<RemoteRef>>) -> (r: (Vec<RemoteRef>, Vec<RemoteRef>))
    requires
        forall|i: int| 0 <= i < lists@.len() ==> refs_unique(#[trigger] lists@[i].deep_view()),
    ensures
        refs_unique(r.0.deep_view()),
        forall|k: int|
            0 <= k < r.0.deep_view().len() ==> first_server_wins(
                lists.deep_view(),
                (#[trigger] r.0.deep_view()[k]).refstr,
                r.0.deep_view()[k].oid,
            ),
        forall|refstr: Seq<char>|
            #[trigger] refs_have(r.0.deep_view(), refstr) <==> exists|i: int|
                0 <= i < lists.deep_view().len() && refs_have(
                    #[trigger] lists.deep_view()[i],
                    refstr,
                ),
        forall|d: RemoteRefView|
            #[trigger] r.1.deep_view().contains(d) ==> (exists|i: int|
                refs_have_pair(#[trigger] lists.deep_view()[i], d.refstr, d.oid) && 0 <= i
                    < lists.deep_view().len()) && exists|w: RemoteRefView|
                #[trigger] r.0.deep_view().contains(w) && w.refstr == d.refstr && w.oid != d.oid,
{
    let ghost lv = lists.deep_view();
    let mut merged: Vec<RemoteRef> = Vec::new();
    let mut disagreements: Vec<RemoteRef> = Vec::new();
    let n = lists.len();
    let mut i: usize = 0;
    while i < n
        invariant
            i <= n,
            n == lists@.len(),
            lists.deep_view() == lv,
            forall|x: int| 0 <= x < lists@.len() ==> refs_unique(#[trigger] lists@[x].deep_view()),
            forall|x: int| 0 <= x < lv.len() ==> lv[x] == lists@[x].deep_view(),
            refs_unique(merged.deep_view()),
            forall|k: int|
                0 <= k < merged.deep_view().len() ==> first_server_wins(
                    lv.take(i as int),
                    (#[trigger] merged.deep_view()[k]).refstr,
                    merged.deep_view()[k].oid,
                ),
            forall|refstr: Seq<char>|
                #[trigger] refs_have(merged.deep_view(), refstr) <==> exists|x: int|
                    0 <= x < i && refs_have(#[trigger] lv[x], refstr),
            forall|d: RemoteRefView|
                #[trigger] disagreements.deep_view().contains(d) ==> (exists|x: int|
                    refs_have_pair(#[trigger] lv[x], d.refstr, d.oid) && 0 <= x < lv.len())
                    && exists|w: RemoteRefView|
                    #[trigger] merged.deep_view().contains(w) && w.refstr == d.refstr && w.oid
                        != d.oid,
        decreases n - i,
    {
        let ghost merged_before = merged.deep_view();
        let ghost disg_before = disagreements.deep_view();
        proof {
            assert(lv[i as int] == lists@[i as int].deep_view());
        }
        merge_one_server(&mut merged, &mut disagreements, &lists[i]);
        proof {
            assert forall|k: int|
                0 <= k < merged.deep_view().len() implies first_server_wins(
                lv.take(i + 1),
                (#[trigger] merged.deep_view()[k]).refstr,
                merged.deep_view()[k].oid,
            ) by {
                let e = merged.deep_view()[k];
                if merged_before.contains(e) {
                    let k0 = choose|k0: int|
                        0 <= k0 < merged_before.len() && merged_before[k0] == e;
                    assert(first_server_wins(lv.take(i as int), e.refstr, e.oid));
                    let w = choose|w: int|
                        0 <= w < lv.take(i as int).len() && refs_have_pair(
                            #[trigger] lv.take(i as int)[w],
                            e.refstr,
                            e.oid,
                        ) && forall|i2: int| 0 <= i2 < w ==> !refs_have(lv.take(i as int)[i2], e.refstr);
                    assert(lv.take(i + 1)[w] == lv.take(i as int)[w]);
                    assert forall|i2: int| 0 <= i2 < w implies !refs_have(
                        #[trigger] lv.take(i + 1)[i2],
                        e.refstr,
                    ) by {
                        assert(lv.take(i + 1)[i2] == lv.take(i as int)[i2]);
                    }
                    assert(refs_have_pair(lv.take(i + 1)[w], e.refstr, e.oid));
                    assert(first_server_wins(lv.take(i + 1), e.refstr, e.oid));
                } else {
                    // Won by the list just merged: no earlier server had it.
                    assert(refs_have_pair(lv[i as int], e.refstr, e.oid)
                        && !refs_have(merged_before, e.refstr));
                    assert forall|i2: int| 0 <= i2 < i implies !refs_have(
                        #[trigger] lv.take(i + 1)[i2],
                        e.refstr,
                    ) by {
                        assert(lv.take(i + 1)[i2] == lv[i2]);
                        if refs_have(lv[i2], e.refstr) {
                            assert(refs_have(merged_before, e.refstr));
                        }
                    }
                    assert(lv.take(i + 1)[i as int] == lv[i as int]);
                    assert(first_server_wins(lv.take(i + 1), e.refstr, e.oid));
                }
            }
            assert forall|refstr: Seq<char>| #[trigger] refs_have(merged.deep_view(), refstr)
                implies exists|x: int| 0 <= x < i + 1 && refs_have(#[trigger] lv[x], refstr) by {
                if refs_have(merged_before, refstr) {
                    let x = choose|x: int| 0 <= x < i && refs_have(#[trigger] lv[x], refstr);
                    assert(refs_have(lv[x], refstr));
                } else {
                    assert(refs_have(lists@[i as int].deep_view(), refstr));
                    assert(refs_have(lv[i as int], refstr));
                }
            }
            assert forall|refstr: Seq<char>|
                (exists|x: int| 0 <= x < i + 1 && refs_have(#[trigger] lv[x], refstr))
                    implies #[trigger] refs_have(merged.deep_view(), refstr) by {
                let x = choose|x: int| 0 <= x < i + 1 && refs_have(#[trigger] lv[x], refstr);
                if x < i {
                    assert(refs_have(merged_before, refstr));
                } else {
                    assert(refs_have(lists@[i as int].deep_view(), refstr));
                }
            }
            assert forall|d: RemoteRefView| #[trigger] disagreements.deep_view().contains(d)
                implies (exists|x: int|
                refs_have_pair(#[trigger] lv[x], d.refstr, d.oid) && 0 <= x < lv.len())
                && exists|w: RemoteRefView|
                #[trigger] merged.deep_view().contains(w) && w.refstr == d.refstr && w.oid
                    != d.oid by {
                if disg_before.contains(d) {
                    let w = choose|w: RemoteRefView|
                        #[trigger] merged_before.contains(w) && w.refstr == d.refstr && w.oid
                            != d.oid;
                    assert(merged.deep_view().contains(w));
                } else {
                    assert(refs_have_pair(lists@[i as int].deep_view(), d.refstr, d.oid));
                    assert(refs_have_pair(lv[i as int], d.refstr, d.oid));
                    let w = choose|w: RemoteRefView|
                        #[trigger] merged_before.contains(w) && w.refstr == d.refstr && w.oid
                            != d.oid;
                    assert(merged.deep_view().contains(w));
                }
            }
        }
        i += 1;
    }
    proof {
        assert(lv.take(n as int) =~= lv);
        assert forall|k: int|
            0 <= k < merged.deep_view().len() implies first_server_wins(
            lv,
            (#[trigger] merged.deep_view()[k]).refstr,
            merged.deep_view()[k].oid,
        ) by {
            assert(first_server_wins(lv.take(n as int), merged.deep_view()[k].refstr,
                merged.deep_view()[k].oid));
        }
    }
    (merged, disagreements)
}

} // verus!
