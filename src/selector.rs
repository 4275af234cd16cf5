//! File selection: the files an application's include and exclude patterns
//! pick, in a deterministic order, and those changed since a given instant.
use vstd::prelude::*;

use crate::catalog::texts;
use crate::text::{
    has_prefix, lemma_lex_total, lemma_lex_transitive, lex_lt, same_text, starts_with, text_less,
};
use crate::time::Timestamp;

verus! {

/// Strictly increasing in lexicographic order: sorted and without repeats.
pub open spec fn strictly_sorted(s: Seq<Seq<char>>) -> bool {
    forall|i: int, j: int| 0 <= i < j < s.len() ==> lex_lt(s[i], s[j])
}

/// A file and its last modification time, where it could be read.
pub struct FileStamp {
    pub path: String,
    pub modified: Option<Timestamp>,
}

/// The files changed after an instant, and those whose time could not be
/// read.
pub struct ChangedFiles {
    pub changed: Vec<String>,
    pub unreadable: Vec<String>,
}

pub open spec fn changed_after(fs: Seq<FileStamp>, since: Timestamp) -> Seq<Seq<char>>
    decreases fs.len(),
{
    if fs.len() == 0 {
        seq![]
    } else {
        let rest = changed_after(fs.drop_last(), since);
        match fs.last().modified {
            Some(t) => if t.instant() > since.instant() {
                rest.push(fs.last().path@)
            } else {
                rest
            },
            None => rest,
        }
    }
}

pub open spec fn unreadable_of(fs: Seq<FileStamp>) -> Seq<Seq<char>>
    decreases fs.len(),
{
    if fs.len() == 0 {
        seq![]
    } else {
        let rest = unreadable_of(fs.drop_last());
        match fs.last().modified {
            Some(_) => rest,
            None => rest.push(fs.last().path@),
        }
    }
}

pub open spec fn skip_slashes(s: Seq<char>) -> Seq<char>
    decreases s.len(),
{
    if s.len() > 0 && s[0] == '/' {
        skip_slashes(s.drop_first())
    } else {
        s
    }
}

/// A path below `root`, written relative to it; any other path unchanged.
pub open spec fn relative_to(root: Seq<char>, p: Seq<char>) -> Seq<char> {
    if root.len() > 0 && has_prefix(p, root) && (p.len() == root.len() || root.last() == '/'
        || p[root.len() as int] == '/') {
        skip_slashes(p.skip(root.len() as int))
    } else {
        p
    }
}

/// The glob pattern of each configured path: the path appended to the root.
pub open spec fn patterns_of(root: Seq<char>, paths: Seq<Seq<char>>) -> Seq<Seq<char>> {
    paths.map_values(|p: Seq<char>| root + p)
}

/// Whether `v` holds the text `x`.
pub fn contains_text(v: &Vec<String>, x: &str) -> (r: bool)
    ensures
        r == texts(v@).contains(x@),
{
    let mut i: usize = 0;
    while i < v.len()
        invariant
            i <= v.len(),
            forall|k: int| 0 <= k < i ==> v@[k]@ != x@,
        decreases v.len() - i,
    {
        if same_text(v[i].as_str(), x) {
            assert(texts(v@)[i as int] == x@);
            return true;
        }
        i += 1;
    }
    assert(!texts(v@).contains(x@));
    false
}

/// Adds `x` to a strictly sorted vector, where it keeps it strictly sorted.
pub fn insert_sorted(r: &mut Vec<String>, x: String)
    requires
        strictly_sorted(texts(old(r)@)),
    ensures
        strictly_sorted(texts(final(r)@)),
        forall|y: Seq<char>| texts(final(r)@).contains(y) <==> (texts(old(r)@).contains(y) || y == x@),
{
    let ghost s = texts(r@);
    let mut j: usize = 0;
    while j < r.len() && text_less(r[j].as_str(), x.as_str())
        invariant
            j <= r.len(),
            s == texts(r@),
            forall|a: int| 0 <= a < j ==> lex_lt(s[a], x@),
        decreases r.len() - j,
    {
        j += 1;
    }
    if j < r.len() && same_text(r[j].as_str(), x.as_str()) {
        assert(s[j as int] == x@);
        return;
    }
    proof {
        if j < r.len() {
            lemma_lex_total(s[j as int], x@);
        }
    }
    let ghost xv = x@;
    r.insert(j, x);
    let ghost t = texts(r@);
    proof {
        assert(t =~= s.insert(j as int, xv));
        assert forall|a: int, b: int| 0 <= a < b < t.len() implies lex_lt(t[a], t[b]) by {
            if b < j {
            } else if b == j {
            } else if a < j {
                lemma_lex_transitive(s[a], xv, s[j as int]);
                if b - 1 > j {
                    lemma_lex_transitive(s[a], s[j as int], s[b - 1]);
                }
            } else if a == j {
                if b - 1 > j {
                    lemma_lex_transitive(xv, s[j as int], s[b - 1]);
                }
            } else {
            }
        }
        assert forall|y: Seq<char>| t.contains(y) <==> (s.contains(y) || y == xv) by {
            if t.contains(y) {
                let k = choose|k: int| 0 <= k < t.len() && t[k] == y;
                if k < j {
                    assert(s[k] == y);
                } else if k > j {
                    assert(s[k - 1] == y);
                }
            }
            if s.contains(y) {
                let k = choose|k: int| 0 <= k < s.len() && s[k] == y;
                if k < j {
                    assert(t[k] == y);
                } else {
                    assert(t[k + 1] == y);
                }
            }
            if y == xv {
                assert(t[j as int] == y);
            }
        }
    }
}

/// The files to back up: those that the include patterns matched and the
/// exclude patterns did not, each once, in lexicographic order.
pub fn get_files_to_backup(included: &Vec<String>, excluded: &Vec<String>) -> (r: Vec<String>)
    ensures
        strictly_sorted(texts(r@)),
        forall|x: Seq<char>|
            texts(r@).contains(x) <==> (texts(included@).contains(x) && !texts(excluded@).contains(x)),
{
    let mut r: Vec<String> = Vec::new();
    let mut i: usize = 0;
    while i < included.len()
        invariant
            i <= included.len(),
            strictly_sorted(texts(r@)),
            forall|x: Seq<char>|
                texts(r@).contains(x) <==> (texts(included@).subrange(0, i as int).contains(x)
                    && !texts(excluded@).contains(x)),
        decreases included.len() - i,
    {
        let ghost before = texts(r@);
        let ghost inc = texts(included@);
        assert forall|x: Seq<char>| #[trigger] inc.subrange(0, i + 1).contains(x) <==> (inc.subrange(0, i as int).contains(x) || x == inc[i as int]) by {
            if inc.subrange(0, i + 1).contains(x) {
                let k = choose|k: int| 0 <= k < i + 1 && #[trigger] inc.subrange(0, i + 1)[k] == x;
                if k < i {
                    assert(inc.subrange(0, i as int)[k] == x);
                }
            }
            if inc.subrange(0, i as int).contains(x) {
                let k = choose|k: int| 0 <= k < i && #[trigger] inc.subrange(0, i as int)[k] == x;
                assert(inc.subrange(0, i + 1)[k] == x);
            }
            if x == inc[i as int] {
                assert(inc.subrange(0, i + 1)[i as int] == x);
            }
        }
        if !contains_text(excluded, included[i].as_str()) {
            insert_sorted(&mut r, included[i].clone());
        }
        i += 1;
    }
    assert(texts(included@).subrange(0, included.len() as int) =~= texts(included@));
    r
}

/// Splits the files into those modified strictly after `since` and those
/// whose modification time could not be read, both in the given order.
pub fn filter_files_newer_than(files: &Vec<FileStamp>, since: Timestamp) -> (r: ChangedFiles)
    ensures
        texts(r.changed@) == changed_after(files@, since),
        texts(r.unreadable@) == unreadable_of(files@),
{
    let mut changed: Vec<String> = Vec::new();
    let mut unreadable: Vec<String> = Vec::new();
    let mut i: usize = 0;
    while i < files.len()
        invariant
            i <= files.len(),
            texts(changed@) == changed_after(files@.subrange(0, i as int), since),
            texts(unreadable@) == unreadable_of(files@.subrange(0, i as int)),
        decreases files.len() - i,
    {
        assert(files@.subrange(0, i + 1).drop_last() =~= files@.subrange(0, i as int));
        let ghost c0 = texts(changed@);
        let ghost u0 = texts(unreadable@);
        match files[i].modified {
            Some(t) => {
                if t.is_after(&since) {
                    changed.push(files[i].path.clone());
                    assert(texts(changed@) =~= c0.push(files@[i as int].path@));
                }
            },
            None => {
                unreadable.push(files[i].path.clone());
                assert(texts(unreadable@) =~= u0.push(files@[i as int].path@));
            },
        }
        i += 1;
    }
    assert(files@.subrange(0, files.len() as int) =~= files@);
    ChangedFiles { changed, unreadable }
}

/// `p` written relative to `root` where it lies below it.
pub fn relative_path(root: &str, p: &str) -> (r: String)
    ensures
        r@ == relative_to(root@, p@),
{
    let n = root.unicode_len();
    let m = p.unicode_len();
    if n > 0 && starts_with(p, root) && (m == n || root.get_char(n - 1) == '/' || p.get_char(n)
        == '/') {
        let mut k = n;
        assert(skip_slashes(p@.skip(n as int)) == skip_slashes(p@.skip(k as int)));
        while k < m && p.get_char(k) == '/'
            invariant
                n <= k <= m,
                m == p@.len(),
                skip_slashes(p@.skip(n as int)) == skip_slashes(p@.skip(k as int)),
            decreases m - k,
        {
            assert(p@.skip(k as int).drop_first() =~= p@.skip(k + 1));
            k += 1;
        }
        let r = String::from_str(p.substring_char(k, m));
        assert(r@ =~= p@.skip(k as int));
        r
    } else {
        String::from_str(p)
    }
}

/// The glob pattern of each configured path, the path appended to `root`.
pub fn glob_patterns(root: &String, paths: &Vec<String>) -> (r: Vec<String>)
    ensures
        texts(r@) == patterns_of(root@, texts(paths@)),
{
    let mut r: Vec<String> = Vec::new();
    let mut i: usize = 0;
    while i < paths.len()
        invariant
            i <= paths.len(),
            texts(r@) == patterns_of(root@, texts(paths@).subrange(0, i as int)),
        decreases paths.len() - i,
    {
        let ghost before = texts(r@);
        r.push(root.clone().concat(paths[i].as_str()));
        assert(texts(r@) =~= before.push(root@ + paths@[i as int]@));
        assert(patterns_of(root@, texts(paths@).subrange(0, i + 1)) =~= patterns_of(
            root@,
            texts(paths@).subrange(0, i as int),
        ).push(root@ + paths@[i as int]@));
        assert(texts(r@) =~= patterns_of(root@, texts(paths@).subrange(0, i + 1)));
        i += 1;
    }
    assert(texts(paths@).subrange(0, paths.len() as int) =~= texts(paths@));
    r
}

} // verus!
