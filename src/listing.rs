//! Listing: the backups of each application in the local and remote
//! catalogs, grouped for display.
use vstd::prelude::*;

use crate::backup::{Backup, BackupView};
use crate::catalog::{filter_by_app, of_app, texts, views};
use crate::config::Config;
use crate::selector::{contains_text, insert_sorted, strictly_sorted};
use crate::text::{lemma_lex_asymmetric, lemma_lex_transitive, lex_lt, text_less};

verus! {

broadcast use {vstd::seq_lib::to_multiset_build, vstd::seq_lib::to_multiset_insert};

/// The backups of one application in each store.
#[derive(Debug)]
pub struct AppListing {
    pub app_name: String,
    pub local: Vec<Backup>,
    pub remote: Vec<Backup>,
}

/// Ordered by identifier, equal identifiers in any order.
pub open spec fn by_name(s: Seq<BackupView>) -> bool {
    forall|i: int, j: int| 0 <= i < j < s.len() ==> !lex_lt(s[j].display_name, s[i].display_name)
}

pub open spec fn configured(configs: Seq<Config>, app: Seq<char>) -> bool {
    exists|k: int| 0 <= k < configs.len() && configs[k].app_name@ == app
}

/// The applications that have remote backups but no configuration.
pub open spec fn remote_only(configs: Seq<Config>, remote: Seq<BackupView>, app: Seq<char>) -> bool {
    (exists|k: int| 0 <= k < remote.len() && remote[k].app_name == app) && !configured(configs, app)
}

/// The backups ordered by identifier; each stays in as often as it was given.
pub fn sort_by_name(v: Vec<Backup>) -> (r: Vec<Backup>)
    ensures
        by_name(views(r@)),
        views(r@).to_multiset() == views(v@).to_multiset(),
{
    let mut r: Vec<Backup> = Vec::new();
    let mut i: usize = 0;
    assert(views(r@) =~= views(v@.subrange(0, 0)));
    while i < v.len()
        invariant
            i <= v.len(),
            by_name(views(r@)),
            views(r@).to_multiset() == views(v@.subrange(0, i as int)).to_multiset(),
        decreases v.len() - i,
    {
        let x = v[i].clone();
        let mut j: usize = 0;
        while j < r.len() && !text_less(x.display_name.as_str(), r[j].display_name.as_str())
            invariant
                j <= r.len(),
                forall|a: int| 0 <= a < j ==> !lex_lt(x.display_name@, #[trigger] r@[a].display_name@),
            decreases r.len() - j,
        {
            j += 1;
        }
        let ghost before = views(r@);
        r.insert(j, x);
        proof {
            let t = views(r@);
            assert(t =~= before.insert(j as int, x@));
            assert forall|a: int, b: int| 0 <= a < b < t.len() implies !lex_lt(t[b].display_name, t[a].display_name) by {
                if a < j && b > j {
                    assert(t[a] == before[a] && t[b] == before[b - 1]);
                } else if a == j && b > j {
                    let y = before[b - 1].display_name;
                    if lex_lt(y, x.display_name@) {
                        if b - 1 == j {
                            lemma_lex_asymmetric(y, x.display_name@);
                        } else {
                            lemma_lex_transitive(y, x.display_name@, before[j as int].display_name);
                        }
                    }
                } else if a > j {
                    assert(t[a] == before[a - 1] && t[b] == before[b - 1]);
                }
            }
            assert(views(v@.subrange(0, i + 1)) =~= views(v@.subrange(0, i as int)).push(x@));
        }
        i += 1;
    }
    assert(v@.subrange(0, v.len() as int) =~= v@);
    r
}

/// The names of the applications that have remote backups but no
/// configuration, each once, in lexicographic order.
pub fn remote_only_apps(configs: &Vec<Config>, remote: &Vec<Backup>) -> (r: Vec<String>)
    ensures
        strictly_sorted(texts(r@)),
        forall|x: Seq<char>| texts(r@).contains(x) <==> remote_only(configs@, views(remote@), x),
{
    let mut names: Vec<String> = Vec::new();
    let mut known: Vec<String> = Vec::new();
    let mut c: usize = 0;
    while c < configs.len()
        invariant
            c <= configs.len(),
            texts(known@) == configs@.subrange(0, c as int).map_values(|k: Config| k.app_name@),
        decreases configs.len() - c,
    {
        let ghost before = texts(known@);
        known.push(configs[c].app_name.clone());
        assert(texts(known@) =~= before.push(configs@[c as int].app_name@));
        assert(configs@.subrange(0, c + 1).map_values(|k: Config| k.app_name@) =~= configs@.subrange(
            0,
            c as int,
        ).map_values(|k: Config| k.app_name@).push(configs@[c as int].app_name@));
        assert(texts(known@) =~= configs@.subrange(0, c + 1).map_values(|k: Config| k.app_name@));
        c += 1;
    }
    assert(configs@.subrange(0, configs.len() as int) =~= configs@);
    assert forall|x: Seq<char>| texts(known@).contains(x) <==> configured(configs@, x) by {
        if configured(configs@, x) {
            let k = choose|k: int| 0 <= k < configs@.len() && configs@[k].app_name@ == x;
            assert(texts(known@)[k] == x);
        }
    }
    let mut i: usize = 0;
    while i < remote.len()
        invariant
            i <= remote.len(),
            strictly_sorted(texts(names@)),
            forall|x: Seq<char>| texts(known@).contains(x) <==> configured(configs@, x),
            forall|x: Seq<char>|
                texts(names@).contains(x) <==> (remote_only(
                    configs@,
                    views(remote@).subrange(0, i as int),
                    x,
                )),
        decreases remote.len() - i,
    {
        let ghost s0 = views(remote@).subrange(0, i as int);
        let ghost s1 = views(remote@).subrange(0, i + 1);
        assert forall|x: Seq<char>| remote_only(configs@, s1, x) <==> (remote_only(configs@, s0, x) || (x
            == remote@[i as int].app_name@ && !configured(configs@, x))) by {
            if exists|k: int| 0 <= k < s1.len() && s1[k].app_name == x {
                let k = choose|k: int| 0 <= k < s1.len() && s1[k].app_name == x;
                if k < i {
                    assert(s0[k].app_name == x);
                }
            }
            if exists|k: int| 0 <= k < s0.len() && s0[k].app_name == x {
                let k = choose|k: int| 0 <= k < s0.len() && s0[k].app_name == x;
                assert(s1[k].app_name == x);
            }
            if x == remote@[i as int].app_name@ {
                assert(s1[i as int].app_name == x);
            }
        }
        if !contains_text(&known, remote[i].app_name.as_str()) {
            insert_sorted(&mut names, remote[i].app_name.clone());
        }
        i += 1;
    }
    assert(views(remote@).subrange(0, remote.len() as int) =~= views(remote@));
    names
}

/// What a listing shows. For one named application: its local backups in
/// catalog order. For all: each configured application in configuration
/// order with its local and remote backups in catalog order, then each
/// application that only the remote store knows, by name, with its remote
/// backups ordered by identifier.
pub fn list(app_name: &Option<String>, configs: &Vec<Config>, local: &Vec<Backup>, remote: &Vec<Backup>) -> (r: Vec<AppListing>)
    ensures
        match app_name {
            Some(name) => r@.len() == 1 && r@[0].app_name@ == name@ && views(r@[0].local@) == of_app(
                views(local@),
                name@,
            ) && r@[0].remote@.len() == 0,
            None => {
                &&& configs@.len() <= r@.len()
                &&& forall|k: int|
                    0 <= k < configs@.len() ==> {
                        &&& (#[trigger] r@[k]).app_name@ == configs@[k].app_name@
                        &&& views(r@[k].local@) == of_app(views(local@), configs@[k].app_name@)
                        &&& views(r@[k].remote@) == of_app(views(remote@), configs@[k].app_name@)
                    }
                &&& strictly_sorted(
                    r@.subrange(configs@.len() as int, r@.len() as int).map_values(
                        |l: AppListing| l.app_name@,
                    ),
                )
                &&& forall|x: Seq<char>|
                    r@.subrange(configs@.len() as int, r@.len() as int).map_values(
                        |l: AppListing| l.app_name@,
                    ).contains(x) <==> remote_only(configs@, views(remote@), x)
                &&& forall|k: int|
                    configs@.len() <= k < r@.len() ==> {
                        &&& (#[trigger] r@[k]).local@.len() == 0
                        &&& by_name(views(r@[k].remote@))
                        &&& views(r@[k].remote@).to_multiset() == of_app(
                            views(remote@),
                            r@[k].app_name@,
                        ).to_multiset()
                    }
            },
        },
{
    match app_name {
        Some(name) => {
            let mut r: Vec<AppListing> = Vec::new();
            r.push(
                AppListing {
                    app_name: name.clone(),
                    local: filter_by_app(local, name.as_str()),
                    remote: Vec::new(),
                },
            );
            r
        },
        None => {
            let mut r: Vec<AppListing> = Vec::new();
            let mut c: usize = 0;
            while c < configs.len()
                invariant
                    c <= configs.len(),
                    r@.len() == c,
                    forall|k: int|
                        0 <= k < c ==> {
                            &&& (#[trigger] r@[k]).app_name@ == configs@[k].app_name@
                            &&& views(r@[k].local@) == of_app(views(local@), configs@[k].app_name@)
                            &&& views(r@[k].remote@) == of_app(views(remote@), configs@[k].app_name@)
                        },
                decreases configs.len() - c,
            {
                let name = configs[c].app_name.as_str();
                r.push(
                    AppListing {
                        app_name: configs[c].app_name.clone(),
                        local: filter_by_app(local, name),
                        remote: filter_by_app(remote, name),
                    },
                );
                c += 1;
            }
            let names = remote_only_apps(configs, remote);
            let base = r.len();
            let mut i: usize = 0;
            while i < names.len()
                invariant
                    i <= names.len(),
                    base == configs@.len(),
                    r@.len() == base + i,
                    forall|k: int|
                        0 <= k < base ==> {
                            &&& (#[trigger] r@[k]).app_name@ == configs@[k].app_name@
                            &&& views(r@[k].local@) == of_app(views(local@), configs@[k].app_name@)
                            &&& views(r@[k].remote@) == of_app(views(remote@), configs@[k].app_name@)
                        },
                    r@.subrange(base as int, r@.len() as int).map_values(|l: AppListing| l.app_name@)
                        == texts(names@).subrange(0, i as int),
                    forall|k: int|
                        base <= k < r@.len() ==> {
                            &&& (#[trigger] r@[k]).local@.len() == 0
                            &&& by_name(views(r@[k].remote@))
                            &&& views(r@[k].remote@).to_multiset() == of_app(
                                views(remote@),
                                r@[k].app_name@,
                            ).to_multiset()
                        },
                decreases names.len() - i,
            {
                let ghost before = r@;
                let mine = filter_by_app(remote, names[i].as_str());
                let sorted = sort_by_name(mine);
                r.push(AppListing { app_name: names[i].clone(), local: Vec::new(), remote: sorted });
                assert(r@.subrange(base as int, r@.len() as int).map_values(|l: AppListing| l.app_name@)
                    =~= texts(names@).subrange(0, i + 1));
                assert(forall|k: int| 0 <= k < before.len() ==> r@[k] == before[k]);
                i += 1;
            }
            assert(texts(names@).subrange(0, names.len() as int) =~= texts(names@));
            r
        },
    }
}

} // verus!
