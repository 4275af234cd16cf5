//! Catalogs: the backups that a store holds, read from its entry names and
//! ordered newest first.
use vstd::prelude::*;

use crate::backup::{
    app_segment, decode, decode_error, parsed_time, kind_of_token, kind_segment, server_segment, time_segment,
    Backup, BackupView, NamingError,
};

verus! {

broadcast use {vstd::seq_lib::to_multiset_build, vstd::seq_lib::to_multiset_insert};

pub open spec fn views(s: Seq<Backup>) -> Seq<BackupView> {
    s.map_values(|b: Backup| b@)
}

pub open spec fn texts(s: Seq<String>) -> Seq<Seq<char>> {
    s.map_values(|t: String| t@)
}

/// The index of the last `c` before `end`, or -1.
pub open spec fn last_before(s: Seq<char>, c: char, end: int) -> int
    decreases end,
{
    if end <= 0 || end > s.len() {
        -1
    } else if s[end - 1] == c {
        end - 1
    } else {
        last_before(s, c, end - 1)
    }
}

/// What follows the last `/` of a path.
pub open spec fn file_name_of(p: Seq<char>) -> Seq<char> {
    p.subrange(last_before(p, '/', p.len() as int) + 1, p.len() as int)
}

pub open spec fn tar_at(s: Seq<char>, i: int) -> bool {
    &&& 0 <= i
    &&& i + 4 <= s.len()
    &&& s[i] == '.'
    &&& s[i + 1] == 't'
    &&& s[i + 2] == 'a'
    &&& s[i + 3] == 'r'
}

/// Where the first `.tar` at or after `from` starts, or the length of `s`.
pub open spec fn tar_from(s: Seq<char>, from: int) -> int
    decreases s.len() - from,
{
    if from < 0 || from + 4 > s.len() {
        s.len() as int
    } else if tar_at(s, from) {
        from
    } else {
        tar_from(s, from + 1)
    }
}

/// The identifier in an entry name: the file name up to its first `.tar`.
pub open spec fn entry_name(p: Seq<char>) -> Seq<char> {
    let f = file_name_of(p);
    f.subrange(0, tar_from(f, 0))
}

/// The record that a decodable entry gives.
pub open spec fn entry_view(p: Seq<char>) -> BackupView {
    let n = entry_name(p);
    BackupView {
        app_name: app_segment(n),
        server_name: server_segment(n),
        kind: kind_of_token(kind_segment(n)).unwrap(),
        timestamp: parsed_time(time_segment(n)).unwrap(),
        storage_key: p,
        display_name: n,
    }
}

/// The records of the decodable entries, in the order of the entries.
pub open spec fn decoded(ps: Seq<Seq<char>>) -> Seq<BackupView>
    decreases ps.len(),
{
    if ps.len() == 0 {
        seq![]
    } else {
        let rest = decoded(ps.drop_last());
        if decode_error(entry_name(ps.last())).is_none() {
            rest.push(entry_view(ps.last()))
        } else {
            rest
        }
    }
}

/// The entries that do not decode, in their order.
pub open spec fn undecodable(ps: Seq<Seq<char>>) -> Seq<Seq<char>>
    decreases ps.len(),
{
    if ps.len() == 0 {
        seq![]
    } else {
        let rest = undecodable(ps.drop_last());
        if decode_error(entry_name(ps.last())).is_none() {
            rest
        } else {
            rest.push(ps.last())
        }
    }
}

pub open spec fn newest_first(s: Seq<BackupView>) -> bool {
    forall|i: int, j: int|
        0 <= i < j < s.len() ==> s[i].timestamp.instant() >= s[j].timestamp.instant()
}

/// The backups of one application and server, in the order given.
pub open spec fn of_source(s: Seq<BackupView>, app: Seq<char>, server: Seq<char>) -> Seq<BackupView>
    decreases s.len(),
{
    if s.len() == 0 {
        seq![]
    } else {
        let rest = of_source(s.drop_last(), app, server);
        if s.last().app_name == app && s.last().server_name == server {
            rest.push(s.last())
        } else {
            rest
        }
    }
}

/// The backups of one application, in the order given.
pub open spec fn of_app(s: Seq<BackupView>, app: Seq<char>) -> Seq<BackupView>
    decreases s.len(),
{
    if s.len() == 0 {
        seq![]
    } else {
        let rest = of_app(s.drop_last(), app);
        if s.last().app_name == app {
            rest.push(s.last())
        } else {
            rest
        }
    }
}

/// The backups of a store, newest first, and the entries that name none.
#[derive(Debug)]
pub struct Catalog {
    pub backups: Vec<Backup>,
    pub skipped: Vec<String>,
}

fn last_slash(s: &str) -> (r: Option<usize>)
    ensures
        match r {
            Some(i) => i as int == last_before(s@, '/', s@.len() as int),
            None => last_before(s@, '/', s@.len() as int) == -1,
        },
{
    let n = s.unicode_len();
    let mut end = n;
    while end > 0
        invariant
            end <= n,
            n == s@.len(),
            last_before(s@, '/', n as int) == last_before(s@, '/', end as int),
        decreases end,
    {
        if s.get_char(end - 1) == '/' {
            return Some(end - 1);
        }
        end -= 1;
    }
    None
}

fn find_tar(s: &str) -> (r: usize)
    ensures
        r as int == tar_from(s@, 0),
{
    let n = s.unicode_len();
    let mut i: usize = 0;
    while i <= n && n - i >= 4
        invariant
            n == s@.len(),
            tar_from(s@, 0) == tar_from(s@, i as int),
        decreases n - i,
    {
        if s.get_char(i) == '.' && s.get_char(i + 1) == 't' && s.get_char(i + 2) == 'a' && s.get_char(
            i + 3,
        ) == 'r' {
            return i;
        }
        i += 1;
    }
    n
}

proof fn lemma_last_before_range(s: Seq<char>, c: char, end: int)
    requires
        0 <= end <= s.len(),
    ensures
        -1 <= last_before(s, c, end) < end,
    decreases end,
{
    if end > 0 && s[end - 1] != c {
        lemma_last_before_range(s, c, end - 1);
    }
}

proof fn lemma_tar_from_range(s: Seq<char>, from: int)
    requires
        0 <= from,
    ensures
        tar_from(s, from) <= s.len(),
        from <= s.len() ==> from <= tar_from(s, from),
    decreases s.len() - from,
{
    if from + 4 <= s.len() && !tar_at(s, from) {
        lemma_tar_from_range(s, from + 1);
    }
}

/// Reads a backup from a store entry: a path whose file name is an
/// identifier, followed by any archive extension that starts with `.tar`.
/// The record is keyed by the whole path.
pub fn parse_backup_from_path(path: &str) -> (r: Result<Backup, NamingError>)
    ensures
        match r {
            Ok(b) => decode_error(entry_name(path@)).is_none() && b@ == entry_view(path@) && b.wf(),
            Err(e) => decode_error(entry_name(path@)) == Some(e),
        },
{
    let n = path.unicode_len();
    proof {
        lemma_last_before_range(path@, '/', n as int);
    }
    let start = match last_slash(path) {
        Some(i) => i + 1,
        None => 0,
    };
    let file_name = path.substring_char(start, n);
    assert(file_name@ == file_name_of(path@));
    let stem_len = find_tar(file_name);
    proof {
        lemma_tar_from_range(file_name@, 0);
    }
    let stem = file_name.substring_char(0, stem_len);
    assert(stem@ == entry_name(path@));
    match decode(stem) {
        Ok(b) => {
            let r = Backup { storage_key: String::from_str(path), ..b };
            assert(r@ == entry_view(path@));
            Ok(r)
        },
        Err(e) => Err(e),
    }
}

/// The backups ordered newest first; each stays in as often as it was given.
pub fn sort_newest_first(v: Vec<Backup>) -> (r: Vec<Backup>)
    ensures
        newest_first(views(r@)),
        views(r@).to_multiset() == views(v@).to_multiset(),
{
    let mut r: Vec<Backup> = Vec::new();
    let mut i: usize = 0;
    assert(views(r@) =~= views(v@.subrange(0, 0)));
    while i < v.len()
        invariant
            i <= v.len(),
            newest_first(views(r@)),
            views(r@).to_multiset() == views(v@.subrange(0, i as int)).to_multiset(),
        decreases v.len() - i,
    {
        let x = v[i].clone();
        let mut j: usize = 0;
        while j < r.len() && !x.timestamp.is_after(&r[j].timestamp)
            invariant
                j <= r.len(),
                forall|a: int| 0 <= a < j ==> r@[a].timestamp.instant() >= x.timestamp.instant(),
            decreases r.len() - j,
        {
            j += 1;
        }
        let ghost before = views(r@);
        r.insert(j, x);
        proof {
            assert(views(r@) =~= before.insert(j as int, x@));
            assert(views(v@.subrange(0, i + 1)) =~= views(v@.subrange(0, i as int)).push(x@));
        }
        i += 1;
    }
    assert(v@.subrange(0, v.len() as int) =~= v@);
    r
}

/// The catalog of a store from its entries: every entry that decodes gives
/// one backup, the others are set aside in their order; the backups come
/// newest first.
pub fn parse_backups_from_paths(paths: &Vec<String>) -> (r: Catalog)
    ensures
        newest_first(views(r.backups@)),
        views(r.backups@).to_multiset() == decoded(texts(paths@)).to_multiset(),
        texts(r.skipped@) == undecodable(texts(paths@)),
{
    let mut found: Vec<Backup> = Vec::new();
    let mut skipped: Vec<String> = Vec::new();
    let mut i: usize = 0;
    while i < paths.len()
        invariant
            i <= paths.len(),
            views(found@) == decoded(texts(paths@).subrange(0, i as int)),
            texts(skipped@) == undecodable(texts(paths@).subrange(0, i as int)),
        decreases paths.len() - i,
    {
        let ghost ps = texts(paths@).subrange(0, i + 1);
        assert(ps.drop_last() =~= texts(paths@).subrange(0, i as int));
        assert(ps.last() == paths@[i as int]@);
        match parse_backup_from_path(paths[i].as_str()) {
            Ok(b) => {
                let ghost before = views(found@);
                found.push(b);
                assert(views(found@) =~= before.push(entry_view(paths@[i as int]@)));
            },
            Err(_) => {
                let ghost before = texts(skipped@);
                skipped.push(paths[i].clone());
                assert(texts(skipped@) =~= before.push(paths@[i as int]@));
            },
        }
        i += 1;
    }
    assert(texts(paths@).subrange(0, paths.len() as int) =~= texts(paths@));
    Catalog { backups: sort_newest_first(found), skipped }
}

/// The backups of one application, in catalog order.
pub fn filter_by_app(backups: &Vec<Backup>, app_name: &str) -> (r: Vec<Backup>)
    ensures
        views(r@) == of_app(views(backups@), app_name@),
{
    let mut r: Vec<Backup> = Vec::new();
    let mut i: usize = 0;
    while i < backups.len()
        invariant
            i <= backups.len(),
            views(r@) == of_app(views(backups@).subrange(0, i as int), app_name@),
        decreases backups.len() - i,
    {
        let ghost s = views(backups@).subrange(0, i + 1);
        assert(s.drop_last() =~= views(backups@).subrange(0, i as int));
        if crate::text::same_text(backups[i].app_name.as_str(), app_name) {
            let ghost before = views(r@);
            r.push(backups[i].clone());
            assert(views(r@) =~= before.push(backups@[i as int]@));
        }
        i += 1;
    }
    assert(views(backups@).subrange(0, backups.len() as int) =~= views(backups@));
    r
}

/// The extension of a path's file name: what follows its last `.`, where
/// that `.` does not begin the name; `..` has none.
pub open spec fn extension_of(p: Seq<char>) -> Option<Seq<char>> {
    let f = file_name_of(p);
    let d = last_before(f, '.', f.len() as int);
    if d <= 0 || f == seq!['.', '.'] {
        None
    } else {
        Some(f.subrange(d + 1, f.len() as int))
    }
}

pub open spec fn with_extension(ps: Seq<Seq<char>>, ext: Seq<char>) -> Seq<Seq<char>>
    decreases ps.len(),
{
    if ps.len() == 0 {
        seq![]
    } else {
        let rest = with_extension(ps.drop_last(), ext);
        if extension_of(ps.last()) == Some(ext) {
            rest.push(ps.last())
        } else {
            rest
        }
    }
}

fn extension(path: &str) -> (r: Option<String>)
    ensures
        match r {
            Some(e) => extension_of(path@) == Some(e@),
            None => extension_of(path@).is_none(),
        },
{
    let n = path.unicode_len();
    proof {
        lemma_last_before_range(path@, '/', n as int);
    }
    let start = match last_slash(path) {
        Some(i) => i + 1,
        None => 0,
    };
    let f = path.substring_char(start, n);
    assert(f@ == file_name_of(path@));
    let m = f.unicode_len();
    let mut end = m;
    while end > 0 && f.get_char(end - 1) != '.'
        invariant
            end <= m,
            m == f@.len(),
            last_before(f@, '.', m as int) == last_before(f@, '.', end as int),
        decreases end,
    {
        end -= 1;
    }
    proof {
        lemma_last_before_range(f@, '.', m as int);
    }
    if end <= 1 {
        return None;
    }
    if m == 2 && f.get_char(0) == '.' && f.get_char(1) == '.' {
        assert(f@ =~= seq!['.', '.']);
        return None;
    }
    assert(f@ != seq!['.', '.']) by {
        if f@ == seq!['.', '.'] {
            assert(f@[0] == '.' && f@[1] == '.');
        }
    }
    Some(String::from_str(f.substring_char(end, m)))
}

/// The paths whose file name has the extension `extension`, in order.
pub fn filter_files_with_extension(paths: Vec<String>, extension: &str) -> (r: Vec<String>)
    ensures
        texts(r@) == with_extension(texts(paths@), extension@),
{
    let mut r: Vec<String> = Vec::new();
    let mut i: usize = 0;
    while i < paths.len()
        invariant
            i <= paths.len(),
            texts(r@) == with_extension(texts(paths@).subrange(0, i as int), extension@),
        decreases paths.len() - i,
    {
        assert(texts(paths@).subrange(0, i + 1).drop_last() =~= texts(paths@).subrange(0, i as int));
        match self::extension(paths[i].as_str()) {
            Some(e) => {
                if crate::text::same_text(e.as_str(), extension) {
                    let ghost before = texts(r@);
                    r.push(paths[i].clone());
                    assert(texts(r@) =~= before.push(paths@[i as int]@));
                }
            },
            None => {},
        }
        i += 1;
    }
    assert(texts(paths@).subrange(0, paths.len() as int) =~= texts(paths@));
    r
}

/// The path with `extension` appended to its file name's extension
/// (`a.tar` with `.gz` gives `a.tar.gz`); `None` where the file name has no
/// extension.
pub fn get_backup_path_with_extension(path: &str, extension: &str) -> (r: Option<String>)
    ensures
        match r {
            Some(p) => extension_of(path@).is_some() && p@ == path@ + extension@,
            None => extension_of(path@).is_none(),
        },
{
    match self::extension(path) {
        Some(_) => Some(String::from_str(path).concat(extension)),
        None => None,
    }
}

/// The backups of one application and server, in catalog order.
pub fn filter_by_source(backups: &Vec<Backup>, app_name: &str, server_name: &str) -> (r: Vec<Backup>)
    ensures
        views(r@) == of_source(views(backups@), app_name@, server_name@),
{
    let mut r: Vec<Backup> = Vec::new();
    let mut i: usize = 0;
    while i < backups.len()
        invariant
            i <= backups.len(),
            views(r@) == of_source(views(backups@).subrange(0, i as int), app_name@, server_name@),
        decreases backups.len() - i,
    {
        let ghost s = views(backups@).subrange(0, i + 1);
        assert(s.drop_last() =~= views(backups@).subrange(0, i as int));
        if crate::text::same_text(backups[i].app_name.as_str(), app_name) && crate::text::same_text(
            backups[i].server_name.as_str(),
            server_name,
        ) {
            let ghost before = views(r@);
            r.push(backups[i].clone());
            assert(views(r@) =~= before.push(backups@[i as int]@));
        }
        i += 1;
    }
    assert(views(backups@).subrange(0, backups.len() as int) =~= views(backups@));
    r
}

} // verus!
