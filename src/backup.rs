//! Backup records and the naming codec that maps each record to its storage
//! identifier `{app}_{server}_{full|incremental}_{RFC 3339 time}`.
use vstd::prelude::*;

use crate::text::{find_char, first_from, lacks, lemma_first_from, lemma_first_from_skip, same_text};
use crate::time::{format_rfc3339, parse_timestamp, rfc3339_instant, rfc3339_text, Timestamp};

verus! {

#[derive(Clone, Copy, PartialEq, Eq, Structural, Debug)]
pub enum BackupType {
    Full,
    Incremental,
}

/// Why a storage identifier does not name a backup.
#[derive(Clone, Copy, PartialEq, Eq, Structural, Debug)]
pub enum NamingError {
    /// Fewer than four `_`-separated segments.
    MissingField,
    /// The third segment is neither `full` nor `incremental`.
    UnknownKind,
    /// The fourth segment is not an RFC 3339 date and time.
    MalformedTimestamp,
}

/// One archive: who it belongs to, what it holds, when it was taken, where
/// the store keeps it and the identifier it is known by.
#[derive(Debug)]
pub struct Backup {
    pub app_name: String,
    pub server_name: String,
    pub kind: BackupType,
    pub timestamp: Timestamp,
    pub storage_key: String,
    pub display_name: String,
}

pub ghost struct BackupView {
    pub app_name: Seq<char>,
    pub server_name: Seq<char>,
    pub kind: BackupType,
    pub timestamp: Timestamp,
    pub storage_key: Seq<char>,
    pub display_name: Seq<char>,
}

impl View for Backup {
    type V = BackupView;

    open spec fn view(&self) -> BackupView {
        BackupView {
            app_name: self.app_name@,
            server_name: self.server_name@,
            kind: self.kind,
            timestamp: self.timestamp,
            storage_key: self.storage_key@,
            display_name: self.display_name@,
        }
    }
}

impl Clone for Backup {
    fn clone(&self) -> (r: Self)
        ensures
            r == *self,
    {
        Backup {
            app_name: self.app_name.clone(),
            server_name: self.server_name.clone(),
            kind: self.kind,
            timestamp: self.timestamp,
            storage_key: self.storage_key.clone(),
            display_name: self.display_name.clone(),
        }
    }
}

pub open spec fn is_full(b: Backup) -> bool {
    b.kind == BackupType::Full
}

/// The token of each kind in an identifier.
pub open spec fn kind_token(k: BackupType) -> Seq<char> {
    match k {
        BackupType::Full => seq!['f', 'u', 'l', 'l'],
        BackupType::Incremental => seq!['i', 'n', 'c', 'r', 'e', 'm', 'e', 'n', 't', 'a', 'l'],
    }
}

pub open spec fn kind_of_token(s: Seq<char>) -> Option<BackupType> {
    if s == kind_token(BackupType::Full) {
        Some(BackupType::Full)
    } else if s == kind_token(BackupType::Incremental) {
        Some(BackupType::Incremental)
    } else {
        None
    }
}

/// The identifier of a backup.
pub open spec fn encode_name(app: Seq<char>, server: Seq<char>, kind: BackupType, t: Timestamp) -> Seq<char> {
    app + seq!['_'] + server + seq!['_'] + kind_token(kind) + seq!['_'] + rfc3339_text(
        t.secs as int,
        t.nanos as int,
    )
}

/// Positions of the first three `_` of an identifier (-1 where missing).
pub open spec fn sep1(s: Seq<char>) -> int {
    first_from(s, '_', 0)
}

pub open spec fn sep2(s: Seq<char>) -> int {
    if sep1(s) < 0 {
        -1
    } else {
        first_from(s, '_', sep1(s) + 1)
    }
}

pub open spec fn sep3(s: Seq<char>) -> int {
    if sep2(s) < 0 {
        -1
    } else {
        first_from(s, '_', sep2(s) + 1)
    }
}

pub open spec fn has_all_segments(s: Seq<char>) -> bool {
    sep3(s) >= 0
}

pub open spec fn app_segment(s: Seq<char>) -> Seq<char> {
    s.subrange(0, sep1(s))
}

pub open spec fn server_segment(s: Seq<char>) -> Seq<char> {
    s.subrange(sep1(s) + 1, sep2(s))
}

pub open spec fn kind_segment(s: Seq<char>) -> Seq<char> {
    s.subrange(sep2(s) + 1, sep3(s))
}

/// The fourth segment runs to the end of the identifier.
pub open spec fn time_segment(s: Seq<char>) -> Seq<char> {
    s.subrange(sep3(s) + 1, s.len() as int)
}

/// The instant that chrono reads from a time text, as a `Timestamp`.
pub open spec fn parsed_time(seg: Seq<char>) -> Option<Timestamp> {
    match rfc3339_instant(seg) {
        Some(p) => Some(Timestamp { secs: p.0 as i64, nanos: p.1 as u32 }),
        None => None,
    }
}

/// Why `s` does not name a backup when its time segment reads as `time`,
/// checked in this order; `None` where it does. The time must be one that
/// the codec writes, written exactly as the codec writes it.
pub open spec fn name_error(s: Seq<char>, time: Option<Timestamp>) -> Option<NamingError> {
    if !has_all_segments(s) {
        Some(NamingError::MissingField)
    } else if kind_of_token(kind_segment(s)).is_none() {
        Some(NamingError::UnknownKind)
    } else {
        match time {
            Some(t) => if t.wf() && rfc3339_text(t.secs as int, t.nanos as int) == time_segment(s) {
                None
            } else {
                Some(NamingError::MalformedTimestamp)
            },
            None => Some(NamingError::MalformedTimestamp),
        }
    }
}

/// Why `s` does not decode; `None` where it does.
pub open spec fn decode_error(s: Seq<char>) -> Option<NamingError> {
    name_error(s, parsed_time(time_segment(s)))
}

/// `b` holds the fields that the identifier `s` spells.
pub open spec fn decodes_to(s: Seq<char>, b: BackupView) -> bool {
    &&& decode_error(s).is_none()
    &&& b.app_name == app_segment(s)
    &&& b.server_name == server_segment(s)
    &&& kind_of_token(kind_segment(s)) == Some(b.kind)
    &&& parsed_time(time_segment(s)) == Some(b.timestamp)
    &&& b.display_name == s
}

impl Backup {
    /// A record whose identifier is its own and whose names the codec can
    /// tell apart.
    pub open spec fn wf(&self) -> bool {
        &&& lacks(self.app_name@, '_')
        &&& lacks(self.server_name@, '_')
        &&& self.timestamp.wf()
        &&& self.display_name@ == encode_name(
            self.app_name@,
            self.server_name@,
            self.kind,
            self.timestamp,
        )
    }
}

/// The segments of an identifier built by `encode_name` are the parts it was
/// built from.
pub proof fn lemma_encoded_segments(app: Seq<char>, server: Seq<char>, kind: BackupType, t: Timestamp)
    requires
        lacks(app, '_'),
        lacks(server, '_'),
    ensures
        ({
            let e = encode_name(app, server, kind, t);
            &&& has_all_segments(e)
            &&& app_segment(e) == app
            &&& server_segment(e) == server
            &&& kind_segment(e) == kind_token(kind)
            &&& time_segment(e) == rfc3339_text(t.secs as int, t.nanos as int)
        }),
{
    let e = encode_name(app, server, kind, t);
    let k = kind_token(kind);
    let ts = rfc3339_text(t.secs as int, t.nanos as int);
    let a = app.len() as int;
    let b = a + 1 + server.len();
    let c = b + 1 + k.len();
    assert(e.len() == c + 1 + ts.len());
    assert(forall|i: int| 0 <= i < a ==> e[i] == app[i]);
    assert(e[a] == '_');
    lemma_first_from_skip(e, '_', 0, a);
    assert(sep1(e) == a);
    assert(forall|i: int| a + 1 <= i < b ==> e[i] == server[i - a - 1]);
    assert(e[b] == '_');
    lemma_first_from_skip(e, '_', a + 1, b);
    assert(sep2(e) == b);
    assert(forall|i: int| b + 1 <= i < c ==> e[i] == k[i - b - 1]);
    assert(forall|i: int| 0 <= i < k.len() ==> k[i] != '_') by {
        reveal_with_fuel(kind_token, 1);
    }
    assert(e[c] == '_');
    lemma_first_from_skip(e, '_', b + 1, c);
    assert(sep3(e) == c);
    assert(app_segment(e) =~= app);
    assert(server_segment(e) =~= server);
    assert(kind_segment(e) =~= k);
    assert(time_segment(e) =~= ts);
}

/// The identifier for the given fields.
pub fn name_of(app_name: &str, server_name: &str, kind: BackupType, timestamp: Timestamp) -> (r: String)
    requires
        timestamp.wf(),
    ensures
        r@ == encode_name(app_name@, server_name@, kind, timestamp),
{
    let token = match kind {
        BackupType::Full => "full",
        BackupType::Incremental => "incremental",
    };
    proof {
        reveal_strlit("full");
        reveal_strlit("incremental");
        reveal_strlit("_");
    }
    assert(token@ == kind_token(kind));
    let time = format_rfc3339(timestamp);
    let r = String::from_str(app_name).concat("_").concat(server_name).concat("_").concat(token).concat(
        "_",
    ).concat(time.as_str());
    assert(r@ =~= encode_name(app_name@, server_name@, kind, timestamp));
    r
}

/// The identifier of a backup, from its fields.
pub fn encode(b: &Backup) -> (r: String)
    requires
        b.timestamp.wf(),
    ensures
        r@ == encode_name(b.app_name@, b.server_name@, b.kind, b.timestamp),
{
    name_of(b.app_name.as_str(), b.server_name.as_str(), b.kind, b.timestamp)
}

/// An identifier with all four segments is its segments joined by `_`, and
/// the first two hold no `_`.
pub proof fn lemma_segments(s: Seq<char>)
    requires
        has_all_segments(s),
    ensures
        s == app_segment(s) + seq!['_'] + server_segment(s) + seq!['_'] + kind_segment(s) + seq!['_']
            + time_segment(s),
        lacks(app_segment(s), '_'),
        lacks(server_segment(s), '_'),
        lacks(kind_segment(s), '_'),
{
    lemma_first_from(s, '_', 0);
    lemma_first_from(s, '_', sep1(s) + 1);
    lemma_first_from(s, '_', sep2(s) + 1);
    assert(s =~= app_segment(s) + seq!['_'] + server_segment(s) + seq!['_'] + kind_segment(s) + seq![
        '_',
    ] + time_segment(s));
}

/// The positions of the first three `_` of an identifier.
fn separators(name: &str) -> (r: Option<(usize, usize, usize)>)
    ensures
        match r {
            Some((a, b, c)) => has_all_segments(name@) && a as int == sep1(name@) && b as int == sep2(
                name@,
            ) && c as int == sep3(name@) && a < b && b < c && (c as int) < name@.len(),
            None => !has_all_segments(name@),
        },
{
    // The length bounds every index found below.
    let _len = name.unicode_len();
    proof {
        lemma_first_from(name@, '_', 0);
    }
    let i1 = match find_char(name, '_', 0) {
        Some(i) => i,
        None => return None,
    };
    proof {
        lemma_first_from(name@, '_', i1 + 1);
    }
    let i2 = match find_char(name, '_', i1 + 1) {
        Some(i) => i,
        None => return None,
    };
    proof {
        lemma_first_from(name@, '_', i2 + 1);
    }
    let i3 = match find_char(name, '_', i2 + 1) {
        Some(i) => i,
        None => return None,
    };
    Some((i1, i2, i3))
}

/// Reads a backup from its identifier, given the instant that the time
/// segment reads as. The time segment must be exactly the text that the
/// codec writes for that instant, so every record that comes out is
/// well-formed and its identifier is the encoding of its fields. The record
/// is keyed by the identifier itself.
pub fn decode_with_time(name: &str, time: Option<Timestamp>) -> (r: Result<Backup, NamingError>)
    ensures
        match r {
            Ok(b) => {
                &&& name_error(name@, time).is_none()
                &&& b.app_name@ == app_segment(name@)
                &&& b.server_name@ == server_segment(name@)
                &&& kind_of_token(kind_segment(name@)) == Some(b.kind)
                &&& time == Some(b.timestamp)
                &&& b.display_name@ == name@
                &&& b.storage_key@ == name@
                &&& b.wf()
                &&& lacks(time_segment(name@), '_')
            },
            Err(e) => name_error(name@, time) == Some(e),
        },
{
    let n = name.unicode_len();
    let (i1, i2, i3) = match separators(name) {
        Some(p) => p,
        None => return Err(NamingError::MissingField),
    };
    proof {
        lemma_segments(name@);
    }
    let token = name.substring_char(i2 + 1, i3);
    proof {
        reveal_strlit("full");
        reveal_strlit("incremental");
        assert("full"@ =~= kind_token(BackupType::Full));
        assert("incremental"@ =~= kind_token(BackupType::Incremental));
    }
    assert(token@ == kind_segment(name@));
    let kind = if same_text(token, "full") {
        BackupType::Full
    } else if same_text(token, "incremental") {
        BackupType::Incremental
    } else {
        return Err(NamingError::UnknownKind);
    };
    assert(kind_of_token(kind_segment(name@)) == Some(kind));
    let timestamp = match time {
        Some(t) => t,
        None => return Err(NamingError::MalformedTimestamp),
    };
    if !timestamp.is_valid() {
        return Err(NamingError::MalformedTimestamp);
    }
    let text = name.substring_char(i3 + 1, n);
    assert(text@ == time_segment(name@));
    let written = format_rfc3339(timestamp);
    if !same_text(written.as_str(), text) {
        return Err(NamingError::MalformedTimestamp);
    }
    let b = Backup {
        app_name: String::from_str(name.substring_char(0, i1)),
        server_name: String::from_str(name.substring_char(i1 + 1, i2)),
        kind,
        timestamp,
        storage_key: String::from_str(name),
        display_name: String::from_str(name),
    };
    assert(b.display_name@ == encode_name(b.app_name@, b.server_name@, kind, timestamp));
    Ok(b)
}

/// Reads a backup back from its identifier, with chrono's RFC 3339 parser
/// reading the time segment. An identifier decodes exactly when it is four
/// `_`-separated segments, the third a kind and the fourth the text the
/// codec writes for a valid instant; the record is then well-formed, keyed
/// by the identifier itself. An identifier that `encode` wrote gives back the
/// fields it was written from.
pub fn decode(name: &str) -> (r: Result<Backup, NamingError>)
    ensures
        match r {
            Ok(b) => decodes_to(name@, b@) && b.storage_key@ == name@ && b.wf() && lacks(
                time_segment(name@),
                '_',
            ),
            Err(e) => decode_error(name@) == Some(e),
        },
        r.is_ok() <==> decode_error(name@).is_none(),
        forall|app: Seq<char>, server: Seq<char>, kind: BackupType, t: Timestamp|
            #![trigger encode_name(app, server, kind, t)]
            lacks(app, '_') && lacks(server, '_') && t.wf() && name@ == encode_name(app, server, kind, t)
                ==> match r {
                Ok(b) => b.app_name@ == app && b.server_name@ == server && b.kind == kind
                    && b.timestamp == t,
                Err(_) => false,
            },
{
    proof {
        assert forall|app: Seq<char>, server: Seq<char>, kind: BackupType, t: Timestamp|
            #![trigger encode_name(app, server, kind, t)]
            lacks(app, '_') && lacks(server, '_') && name@ == encode_name(app, server, kind, t) implies
                has_all_segments(name@) && app_segment(name@) == app && server_segment(name@) == server
                && kind_segment(name@) == kind_token(kind) && time_segment(name@) == rfc3339_text(
                t.secs as int,
                t.nanos as int,
            ) by {
            lemma_encoded_segments(app, server, kind, t);
        }
    }
    let n = name.unicode_len();
    let time = match separators(name) {
        Some((_, _, i3)) => {
            let text = name.substring_char(i3 + 1, n);
            assert(text@ == time_segment(name@));
            parse_timestamp(text)
        },
        None => None,
    };
    assert(has_all_segments(name@) ==> time == parsed_time(time_segment(name@)));
    decode_with_time(name, time)
}

} // verus!
