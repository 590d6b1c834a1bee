//! The uniform view of sessions drawn from external AI coding tools, and the
//! query that lists them.
use vstd::prelude::*;
use vstd::string::{StrSliceExecFns, StringExecFns};
use crate::text::{str_equal, ascii_lower, lemma_lex_total, lemma_lex_trans, lex_le, str_le, to_ascii_lower_char};

verus! {

#[derive(Debug, Clone, Copy, PartialEq, Eq, Structural)]
pub enum CliType {
    Claude,
    Codex,
    OpenCode,
}

/// One session of one tool.
#[derive(Debug, Clone, PartialEq, Eq)]
pub struct SessionRecord {
    pub cli: CliType,
    pub id: String,
    pub project_path: String,
    pub title: String,
    pub updated_at: i64,
    pub message_count: usize,
}

/// An input that an adapter rejected: `invalid_json` or `invalid_format`.
#[derive(Debug, Clone, PartialEq, Eq)]
pub struct UsfError {
    code: &'static str,
    message: String,
}

impl UsfError {
    pub closed spec fn code_text(&self) -> Seq<char> {
        self.code@
    }

    pub closed spec fn message_text(&self) -> Seq<char> {
        self.message@
    }

    pub fn code(&self) -> (r: &'static str)
        ensures
            r@ == self.code_text(),
    {
        self.code
    }

    pub fn message(&self) -> (r: &str)
        ensures
            r@ == self.message_text(),
    {
        self.message.as_str()
    }

    pub fn invalid_json(message: String) -> (r: UsfError)
        ensures
            r.code_text() == "invalid_json"@,
            r.message_text() == message@,
    {
        UsfError { code: "invalid_json", message }
    }

    pub fn invalid_format(message: String) -> (r: UsfError)
        ensures
            r.code_text() == "invalid_format"@,
            r.message_text() == message@,
    {
        UsfError { code: "invalid_format", message }
    }
}

impl SessionRecord {
    /// A copy with equal fields.
    pub fn duplicate(&self) -> (r: SessionRecord)
        ensures
            r == *self,
    {
        SessionRecord {
            cli: self.cli,
            id: self.id.clone(),
            project_path: self.project_path.clone(),
            title: self.title.clone(),
            updated_at: self.updated_at,
            message_count: self.message_count,
        }
    }
}

/// ASCII lower case of every character.
pub open spec fn lower(s: Seq<char>) -> Seq<char> {
    s.map_values(|c: char| ascii_lower(c))
}

/// `needle` occurs in `hay` as a contiguous run.
pub open spec fn occurs_in(needle: Seq<char>, hay: Seq<char>) -> bool {
    exists|i: int| 0 <= i <= hay.len() - needle.len() && #[trigger] hay.subrange(i, i + needle.len()) == needle
}

/// The text a filter is matched against: id, title and project path.
pub open spec fn haystack(s: SessionRecord) -> Seq<char> {
    s.id@ + " "@ + s.title@ + " "@ + s.project_path@
}

/// Whether a session passes both filters.
pub open spec fn selected(s: SessionRecord, cli: Option<CliType>, text: Option<Seq<char>>) -> bool {
    &&& (cli matches Some(c) ==> s.cli == c)
    &&& (text matches Some(t) ==> occurs_in(lower(t), lower(haystack(s))))
}

/// The filter a query applies.
pub open spec fn query_filter(cli: Option<CliType>, text: Option<Seq<char>>) -> spec_fn(SessionRecord) -> bool {
    |s: SessionRecord| selected(s, cli, text)
}

pub open spec fn text_view(t: Option<&str>) -> Option<Seq<char>> {
    match t {
        Some(t) => Some(t@),
        None => None,
    }
}

/// `a` lists no later than `b`: more recent first, then by ascending id.
pub open spec fn listed_before(a: SessionRecord, b: SessionRecord) -> bool {
    a.updated_at > b.updated_at || (a.updated_at == b.updated_at && lex_le(a.id@, b.id@))
}

pub open spec fn sorted_for_listing(s: Seq<SessionRecord>) -> bool {
    forall|i: int, j: int| 0 <= i < j < s.len() ==> listed_before(#[trigger] s[i], #[trigger] s[j])
}

fn lowered(s: &str) -> (r: Vec<char>)
    ensures
        r@ == lower(s@),
{
    let n = s.unicode_len();
    let mut out: Vec<char> = Vec::new();
    let mut i: usize = 0;
    while i < n
        invariant
            n == s@.len(),
            0 <= i <= n,
            out@ == lower(s@.subrange(0, i as int)),
        decreases n - i,
    {
        let c = to_ascii_lower_char(s.get_char(i));
        out.push(c);
        proof {
            assert(lower(s@.subrange(0, i + 1)) =~= lower(s@.subrange(0, i as int)).push(c));
        }
        i = i + 1;
    }
    proof {
        assert(s@.subrange(0, n as int) =~= s@);
    }
    out
}

fn occurs(needle: &Vec<char>, hay: &Vec<char>) -> (r: bool)
    ensures
        r == occurs_in(needle@, hay@),
{
    let n = needle.len();
    let m = hay.len();
    if n > m {
        proof {
            assert forall|i: int| 0 <= i <= hay@.len() - needle@.len() implies #[trigger] hay@.subrange(i, i + needle@.len()) != needle@ by {}
        }
        return false;
    }
    let mut i: usize = 0;
    while i <= m - n
        invariant
            n == needle@.len(),
            m == hay@.len(),
            n <= m,
            0 <= i <= m - n + 1,
            forall|k: int| 0 <= k < i ==> #[trigger] hay@.subrange(k, k + n) != needle@,
        decreases m - n + 1 - i,
    {
        let mut j: usize = 0;
        while j < n && hay[i + j] == needle[j]
            invariant
                n == needle@.len(),
                m == hay@.len(),
                i + n <= m,
                0 <= j <= n,
                forall|k: int| 0 <= k < j ==> hay@[i + k] == needle@[k],
            decreases n - j,
        {
            j = j + 1;
        }
        if j == n {
            proof {
                assert(hay@.subrange(i as int, i + n) =~= needle@);
            }
            return true;
        }
        proof {
            assert(hay@.subrange(i as int, i + n)[j as int] != needle@[j as int]);
        }
        i = i + 1;
    }
    false
}

fn session_haystack(s: &SessionRecord) -> (r: String)
    ensures
        r@ == haystack(*s),
{
    let mut text = s.id.clone();
    text.append(" ");
    text.append(s.title.as_str());
    text.append(" ");
    text.append(s.project_path.as_str());
    text
}

/// Whether `a` lists no later than `b`.
fn lists_before(a: &SessionRecord, b: &SessionRecord) -> (r: bool)
    ensures
        r == listed_before(*a, *b),
{
    a.updated_at > b.updated_at || (a.updated_at == b.updated_at && str_le(a.id.as_str(), b.id.as_str()))
}

proof fn lemma_listed_total(a: SessionRecord, b: SessionRecord)
    ensures
        listed_before(a, b) || listed_before(b, a),
{
    lemma_lex_total(a.id@, b.id@);
}

proof fn lemma_listed_trans(a: SessionRecord, b: SessionRecord, c: SessionRecord)
    requires
        listed_before(a, b),
        listed_before(b, c),
    ensures
        listed_before(a, c),
{
    if a.updated_at == b.updated_at && b.updated_at == c.updated_at {
        lemma_lex_trans(a.id@, b.id@, c.id@);
    }
}

/// The sessions that pass the filters, most recent first and then by id.
pub fn query_sessions(sessions: &[SessionRecord], cli_filter: Option<CliType>, text_filter: Option<&str>) -> (r: Vec<SessionRecord>)
    ensures
        r@.to_multiset() == sessions@.filter(query_filter(cli_filter, text_view(text_filter))).to_multiset(),
        sorted_for_listing(r@),
{
    broadcast use vstd::seq_lib::group_to_multiset_ensures;

    let ghost text = text_view(text_filter);
    let ghost pred = query_filter(cli_filter, text);
    let needle = match text_filter {
        Some(t) => Some(lowered(t)),
        None => None,
    };
    let mut out: Vec<SessionRecord> = Vec::new();
    let mut i: usize = 0;
    proof {
        assert(sessions@.subrange(0, 0).filter(pred) =~= Seq::<SessionRecord>::empty());
        assert(out@ =~= Seq::<SessionRecord>::empty());
    }
    while i < sessions.len()
        invariant
            0 <= i <= sessions@.len(),
            pred == query_filter(cli_filter, text),
            text == text_view(text_filter),
            needle matches Some(nd) ==> text matches Some(t) && nd@ == lower(t),
            needle is None ==> text is None,
            out@.to_multiset() == sessions@.subrange(0, i as int).filter(pred).to_multiset(),
            sorted_for_listing(out@),
        decreases sessions@.len() - i,
    {
        let s = &sessions[i];
        let cli_ok = match cli_filter {
            Some(c) => s.cli == c,
            None => true,
        };
        let text_ok = match &needle {
            Some(nd) => {
                let hay = session_haystack(s);
                let low = lowered(hay.as_str());
                occurs(nd, &low)
            },
            None => true,
        };
        let ghost prefix = sessions@.subrange(0, i as int);
        proof {
            assert(sessions@.subrange(0, i + 1) =~= prefix.push(sessions@[i as int]));
            prefix.lemma_filter_push(sessions@[i as int], pred);
            assert(cli_ok && text_ok <==> pred(sessions@[i as int]));
        }
        if cli_ok && text_ok {
            let rec = s.duplicate();
            let mut pos: usize = 0;
            while pos < out.len() && lists_before(&out[pos], &rec)
                invariant
                    0 <= pos <= out@.len(),
                    forall|k: int| 0 <= k < pos ==> listed_before(#[trigger] out@[k], rec),
                decreases out@.len() - pos,
            {
                pos = pos + 1;
            }
            let ghost before = out@;
            proof {
                if pos < before.len() {
                    lemma_listed_total(before[pos as int], rec);
                    assert forall|k: int| pos <= k < before.len() implies listed_before(rec, #[trigger] before[k]) by {
                        if k > pos {
                            lemma_listed_trans(rec, before[pos as int], before[k]);
                        }
                    }
                }
            }
            out.insert(pos, rec);
            proof {
                let after = out@;
                assert(after =~= before.insert(pos as int, rec));
                vstd::seq_lib::to_multiset_insert(before, pos as int, rec);
                vstd::seq_lib::to_multiset_build(prefix.filter(pred), rec);
                assert forall|a: int, b: int| 0 <= a < b < after.len() implies listed_before(#[trigger] after[a], #[trigger] after[b]) by {
                    if b < pos {
                        assert(after[a] == before[a] && after[b] == before[b]);
                    } else if b == pos {
                        assert(after[a] == before[a]);
                    } else if a < pos {
                        assert(after[a] == before[a] && after[b] == before[b - 1]);
                        lemma_listed_trans(before[a], rec, before[b - 1]);
                    } else if a == pos {
                        assert(after[b] == before[b - 1]);
                    } else {
                        assert(after[a] == before[a - 1] && after[b] == before[b - 1]);
                    }
                }
            }
        }
        i = i + 1;
    }
    proof {
        assert(sessions@.subrange(0, sessions@.len() as int) =~= sessions@);
    }
    out
}

#[verifier::external_type_specification]
#[verifier::external_body]
pub struct ExJsonValue(serde_json::Value);

#[verifier::external_type_specification]
#[verifier::external_body]
pub struct ExJsonError(serde_json::Error);

/// Relies on serde_json's `from_str`: parses a JSON document.
#[verifier::external_body]
fn parse_json(raw: &str) -> (r: Result<serde_json::Value, serde_json::Error>) {
    serde_json::from_str(raw)
}

/// Relies on serde_json's `Value::get`: the member `key` of an object.
#[verifier::external_body]
fn json_get<'a>(v: &'a serde_json::Value, key: &str) -> (r: Option<&'a serde_json::Value>) {
    v.get(key)
}

/// Relies on serde_json's `Value::as_str`: the text of a string value.
#[verifier::external_body]
fn json_str(v: &serde_json::Value) -> (r: Option<&str>) {
    v.as_str()
}

/// Relies on serde_json's `Value::as_i64`: an integer value that fits `i64`.
#[verifier::external_body]
fn json_i64(v: &serde_json::Value) -> (r: Option<i64>) {
    v.as_i64()
}

/// Relies on serde_json's `Value::as_array`: the elements of an array value.
#[verifier::external_body]
fn json_array(v: &serde_json::Value) -> (r: Option<&Vec<serde_json::Value>>) {
    v.as_array()
}

/// Relies on serde_json's `Display` for its error: a readable description.
#[verifier::external_body]
fn json_error_text(e: &serde_json::Error) -> (r: String) {
    e.to_string()
}

/// One transcript entry as read: who spoke and what was said; `None` where
/// the member is missing or is not a string.
pub struct TranscriptItem {
    pub speaker: Option<String>,
    pub text: Option<String>,
}

/// The text of the first entry spoken by `speaker`, if any.
pub open spec fn first_said_by(items: Seq<TranscriptItem>, speaker: Seq<char>) -> Option<Seq<char>>
    decreases items.len(),
{
    if items.len() == 0 {
        None
    } else if items[0].speaker matches Some(s) && s@ == speaker {
        match items[0].text {
            Some(t) => Some(t@),
            None => None,
        }
    } else {
        first_said_by(items.drop_first(), speaker)
    }
}

/// Every entry has both its members as strings.
pub open spec fn complete_items(items: Seq<TranscriptItem>) -> bool {
    forall|i: int| 0 <= i < items.len() ==> (#[trigger] items[i]).speaker is Some && items[i].text is Some
}

/// The record a session file yields once its members are read: any member
/// missing or of the wrong type makes the input invalid JSON for the
/// session's shape; an empty id or project is an invalid format; the title is
/// the first thing `user_word` said, else `untitled session`.
pub fn session_from_fields(
    cli: CliType,
    id: Option<String>,
    project: Option<String>,
    updated_at: Option<i64>,
    items: Option<Vec<TranscriptItem>>,
    user_word: &str,
) -> (r: Result<SessionRecord, UsfError>)
    ensures
        (id is None || project is None || updated_at is None || items is None || !complete_items(
            items->Some_0@,
        )) ==> (r matches Err(e) && e.code_text() == "invalid_json"@),
        (id is Some && project is Some && updated_at is Some && items is Some && complete_items(
            items->Some_0@,
        )) ==> (if id->Some_0@.len() == 0 || project->Some_0@.len() == 0 {
            r matches Err(e) && e.code_text() == "invalid_format"@
        } else {
            r matches Ok(rec) && rec.cli == cli && rec.id == id->Some_0 && rec.project_path
                == project->Some_0 && rec.updated_at == updated_at->Some_0 && rec.message_count
                == items->Some_0@.len() && rec.title@ == match first_said_by(
                items->Some_0@,
                user_word@,
            ) {
                Some(t) => t,
                None => "untitled session"@,
            }
        }),
{
    let id_text = match id {
        Some(v) => v,
        None => {
            return Err(UsfError::invalid_json(String::from_str("missing or non-string session id")));
        },
    };
    let project_text = match project {
        Some(v) => v,
        None => {
            return Err(UsfError::invalid_json(String::from_str("missing or non-string project")));
        },
    };
    let when = match updated_at {
        Some(v) => v,
        None => {
            return Err(UsfError::invalid_json(String::from_str("missing or non-integer update time")));
        },
    };
    let entries = match items {
        Some(v) => v,
        None => {
            return Err(UsfError::invalid_json(String::from_str("missing transcript")));
        },
    };
    let mut title: Option<String> = None;
    let mut i: usize = 0;
    proof {
        assert(entries@.subrange(0, 0) =~= Seq::<TranscriptItem>::empty());
        assert(entries@.subrange(0, entries@.len() as int) =~= entries@);
    }
    while i < entries.len()
        invariant
            0 <= i <= entries@.len(),
            items == Some(entries),
            complete_items(entries@.subrange(0, i as int)),
            title is None ==> first_said_by(entries@, user_word@) == first_said_by(
                entries@.subrange(i as int, entries@.len() as int),
                user_word@,
            ),
            title matches Some(t) ==> first_said_by(entries@, user_word@) == Some(t@),
        decreases entries@.len() - i,
    {
        let ghost rest = entries@.subrange(i as int, entries@.len() as int);
        proof {
            assert(rest.drop_first() =~= entries@.subrange(i + 1, entries@.len() as int));
            assert(rest[0] == entries@[i as int]);
        }
        let item = &entries[i];
        let speaker = match &item.speaker {
            Some(s) => s.as_str(),
            None => {
                proof {
                    assert(entries@[i as int].speaker is None);
                    assert(!complete_items(entries@));
                }
                return Err(UsfError::invalid_json(String::from_str("transcript entry without a speaker")));
            },
        };
        let text = match &item.text {
            Some(t) => t.as_str(),
            None => {
                proof {
                    assert(entries@[i as int].text is None);
                    assert(!complete_items(entries@));
                }
                return Err(UsfError::invalid_json(String::from_str("transcript entry without text")));
            },
        };
        if title.is_none() && str_equal(speaker, user_word) {
            title = Some(String::from_str(text));
        }
        i = i + 1;
        proof {
            assert forall|k: int| 0 <= k < i implies (#[trigger] entries@.subrange(0, i as int)[k]).speaker is Some
                && entries@.subrange(0, i as int)[k].text is Some by {
                if k < i - 1 {
                    assert(entries@.subrange(0, i as int)[k] == entries@.subrange(0, i - 1)[k]);
                }
            }
        }
    }
    proof {
        assert(entries@.subrange(0, entries@.len() as int) =~= entries@);
        if title is None {
            assert(entries@.subrange(entries@.len() as int, entries@.len() as int) =~= Seq::<TranscriptItem>::empty());
        }
    }
    if id_text.unicode_len() == 0 || project_text.unicode_len() == 0 {
        return Err(UsfError::invalid_format(String::from_str("session id and project are required")));
    }
    let title = match title {
        Some(t) => t,
        None => String::from_str("untitled session"),
    };
    Ok(SessionRecord {
        cli,
        id: id_text,
        project_path: project_text,
        title,
        updated_at: when,
        message_count: entries.len(),
    })
}

fn text_member(v: &serde_json::Value, key: &str) -> (r: Option<String>) {
    match json_get(v, key) {
        Some(m) => match json_str(m) {
            Some(t) => Some(String::from_str(t)),
            None => None,
        },
        None => None,
    }
}

fn integer_member(v: &serde_json::Value, key: &str) -> (r: Option<i64>) {
    match json_get(v, key) {
        Some(m) => json_i64(m),
        None => None,
    }
}

fn transcript_member(v: &serde_json::Value, key: &str, speaker_key: &str, text_key: &str) -> (r: Option<Vec<TranscriptItem>>) {
    let entries = match json_get(v, key) {
        Some(m) => match json_array(m) {
            Some(a) => a,
            None => {
                return None;
            },
        },
        None => {
            return None;
        },
    };
    let mut items: Vec<TranscriptItem> = Vec::new();
    let mut i: usize = 0;
    while i < entries.len()
        invariant
            0 <= i <= entries@.len(),
        decreases entries@.len() - i,
    {
        let entry = &entries[i];
        items.push(TranscriptItem { speaker: text_member(entry, speaker_key), text: text_member(entry, text_key) });
        i = i + 1;
    }
    Some(items)
}

/// Parses the raw text of one tool's session file.
pub trait SessionAdapter {
    fn parse(&self, raw: &str) -> Result<SessionRecord, UsfError>;
}

#[derive(Debug, Clone, Copy)]
pub struct ClaudeAdapter;

#[derive(Debug, Clone, Copy)]
pub struct CodexAdapter;

#[derive(Debug, Clone, Copy)]
pub struct OpenCodeAdapter;

fn invalid_json_from(e: &serde_json::Error) -> (r: UsfError)
    ensures
        r.code_text() == "invalid_json"@,
{
    UsfError::invalid_json(json_error_text(e))
}

impl SessionAdapter for ClaudeAdapter {
    /// Reads `session_id`, `project_path`, `updated_at` and `messages`
    /// (`role`, `content`).
    fn parse(&self, raw: &str) -> Result<SessionRecord, UsfError> {
        let v = match parse_json(raw) {
            Ok(v) => v,
            Err(e) => {
                return Err(invalid_json_from(&e));
            },
        };
        session_from_fields(
            CliType::Claude,
            text_member(&v, "session_id"),
            text_member(&v, "project_path"),
            integer_member(&v, "updated_at"),
            transcript_member(&v, "messages", "role", "content"),
            "user",
        )
    }
}

impl SessionAdapter for CodexAdapter {
    /// Reads `id`, `cwd`, `last_updated` and `events` (`type`, `text`).
    fn parse(&self, raw: &str) -> Result<SessionRecord, UsfError> {
        let v = match parse_json(raw) {
            Ok(v) => v,
            Err(e) => {
                return Err(invalid_json_from(&e));
            },
        };
        session_from_fields(
            CliType::Codex,
            text_member(&v, "id"),
            text_member(&v, "cwd"),
            integer_member(&v, "last_updated"),
            transcript_member(&v, "events", "type", "text"),
            "user",
        )
    }
}

impl SessionAdapter for OpenCodeAdapter {
    /// Reads `meta` (`session`, `project`, `updated`) and `transcript`
    /// (`speaker`, `message`).
    fn parse(&self, raw: &str) -> Result<SessionRecord, UsfError> {
        let v = match parse_json(raw) {
            Ok(v) => v,
            Err(e) => {
                return Err(invalid_json_from(&e));
            },
        };
        let (session, project, updated) = match json_get(&v, "meta") {
            Some(meta) => (text_member(meta, "session"), text_member(meta, "project"), integer_member(meta, "updated")),
            None => (None, None, None),
        };
        session_from_fields(
            CliType::OpenCode,
            session,
            project,
            updated,
            transcript_member(&v, "transcript", "speaker", "message"),
            "user",
        )
    }
}

} // verus!
