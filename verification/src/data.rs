//! Configuration and account data, consumed by the client as a read-only
//! snapshot, plus the small in-memory store that hands snapshots out.
//! Loading and saving these from disk is I/O and lives outside the crate.

use crate::acquire::AcquireError;
use crate::json::{lemma_assoc_get_skip, spec_assoc_get, spec_obj_get, FromJson, JsonValue};
use vstd::prelude::*;

verus! {

/// One stored account.
#[allow(non_snake_case)]
#[derive(Debug, Clone)]
pub struct AccountData {
    pub author_level: String,
    pub create_time: String,
    pub description: String,
    pub id: String,
    pub identity: String,
    pub nickname: String,
    pub password: String,
}

impl Default for AccountData {
    fn default() -> (r: Self)
        ensures
            r.author_level@ =~= Seq::<char>::empty(),
            r.create_time@ =~= Seq::<char>::empty(),
            r.description@ =~= Seq::<char>::empty(),
            r.id@ =~= Seq::<char>::empty(),
            r.identity@ =~= Seq::<char>::empty(),
            r.nickname@ =~= Seq::<char>::empty(),
            r.password@ =~= Seq::<char>::empty(),
    {
        AccountData {
            author_level: String::new(),
            create_time: String::new(),
            description: String::new(),
            id: String::new(),
            identity: String::new(),
            nickname: String::new(),
            password: String::new(),
        }
    }
}

/// A declared field's decoded text: the string the element binds the key
/// to, or empty where the key is absent.
pub open spec fn account_field_str(v: JsonValue, key: Seq<char>) -> Seq<char> {
    match spec_obj_get(v, key) {
        Some(w) => match w {
            JsonValue::Str(s) => s@,
            _ => Seq::empty(),
        },
        None => Seq::empty(),
    }
}

/// A declared field decodes: absent, or bound to a string.
pub open spec fn account_field_ok(v: JsonValue, key: Seq<char>) -> bool {
    match spec_obj_get(v, key) {
        Some(w) => w is Str,
        None => true,
    }
}

/// An element this record type decodes from: an object whose declared
/// fields, where present, are strings.
pub open spec fn account_decodable(v: JsonValue) -> bool {
    &&& v is Obj
    &&& account_field_ok(v, "author_level"@)
    &&& account_field_ok(v, "create_time"@)
    &&& account_field_ok(v, "description"@)
    &&& account_field_ok(v, "id"@)
    &&& account_field_ok(v, "identity"@)
    &&& account_field_ok(v, "nickname"@)
    &&& account_field_ok(v, "password"@)
}

/// The decode relation: a decodable element yields the record of its
/// declared fields; any other element is a decode error.
pub open spec fn spec_account_from_json(v: JsonValue, r: Result<AccountData, AcquireError>) -> bool {
    if account_decodable(v) {
        r matches Ok(a) && {
            &&& a.author_level@ == account_field_str(v, "author_level"@)
            &&& a.create_time@ == account_field_str(v, "create_time"@)
            &&& a.description@ == account_field_str(v, "description"@)
            &&& a.id@ == account_field_str(v, "id"@)
            &&& a.identity@ == account_field_str(v, "identity"@)
            &&& a.nickname@ == account_field_str(v, "nickname"@)
            &&& a.password@ == account_field_str(v, "password"@)
        }
    } else {
        r matches Err(e) && e is Decode
    }
}

/// The serialize relation: the object binds each declared key to the
/// record's value for it.
pub open spec fn spec_account_to_json(a: AccountData, t: JsonValue) -> bool {
    &&& t is Obj
    &&& spec_obj_get(t, "author_level"@) == Some(JsonValue::Str(a.author_level))
    &&& spec_obj_get(t, "create_time"@) == Some(JsonValue::Str(a.create_time))
    &&& spec_obj_get(t, "description"@) == Some(JsonValue::Str(a.description))
    &&& spec_obj_get(t, "id"@) == Some(JsonValue::Str(a.id))
    &&& spec_obj_get(t, "identity"@) == Some(JsonValue::Str(a.identity))
    &&& spec_obj_get(t, "nickname"@) == Some(JsonValue::Str(a.nickname))
    &&& spec_obj_get(t, "password"@) == Some(JsonValue::Str(a.password))
}

/// The seven declared keys are pairwise distinct.
proof fn lemma_account_keys_distinct()
    ensures
        "author_level"@ != "create_time"@,
        "author_level"@ != "description"@,
        "author_level"@ != "id"@,
        "author_level"@ != "identity"@,
        "author_level"@ != "nickname"@,
        "author_level"@ != "password"@,
        "create_time"@ != "description"@,
        "create_time"@ != "id"@,
        "create_time"@ != "identity"@,
        "create_time"@ != "nickname"@,
        "create_time"@ != "password"@,
        "description"@ != "id"@,
        "description"@ != "identity"@,
        "description"@ != "nickname"@,
        "description"@ != "password"@,
        "id"@ != "identity"@,
        "id"@ != "nickname"@,
        "id"@ != "password"@,
        "identity"@ != "nickname"@,
        "identity"@ != "password"@,
        "nickname"@ != "password"@,
{
    reveal_strlit("author_level");
    reveal_strlit("create_time");
    reveal_strlit("description");
    reveal_strlit("id");
    reveal_strlit("identity");
    reveal_strlit("nickname");
    reveal_strlit("password");
    assert("author_level"@.len() == 12);
    assert("create_time"@.len() == 11);
    assert("description"@.len() == 11);
    assert("id"@.len() == 2);
    assert("identity"@.len() == 8);
    assert("nickname"@.len() == 8);
    assert("password"@.len() == 8);
    assert("create_time"@[0] == 'c' && "description"@[0] == 'd');
    assert("identity"@[0] == 'i' && "nickname"@[0] == 'n' && "password"@[0] == 'p');
}

impl AccountData {
    /// One declared field read out of an element: the bound string, the
    /// empty default where the key is absent, or a decode error where the
    /// key is bound to something else.
    fn read_field(v: &JsonValue, key: &str) -> (r: Result<String, AcquireError>)
        ensures
            r matches Ok(s) ==> account_field_ok(*v, key@) && s@ == account_field_str(*v, key@),
            r matches Err(e) ==> !account_field_ok(*v, key@) && e is Decode,
    {
        match v.get(key) {
            None => Ok(String::new()),
            Some(w) => match w {
                JsonValue::Str(s) => Ok(s.clone()),
                _ => Err(AcquireError::Decode("Expected a string field".to_owned())),
            },
        }
    }

    /// Serializes the record: an object binding each declared key to the
    /// record's value.
    pub fn to_json(&self) -> (r: JsonValue)
        ensures
            spec_account_to_json(*self, r),
    {
        let mut entries: Vec<(String, JsonValue)> = Vec::new();
        entries.push(("author_level".to_owned(), JsonValue::Str(self.author_level.clone())));
        entries.push(("create_time".to_owned(), JsonValue::Str(self.create_time.clone())));
        entries.push(("description".to_owned(), JsonValue::Str(self.description.clone())));
        entries.push(("id".to_owned(), JsonValue::Str(self.id.clone())));
        entries.push(("identity".to_owned(), JsonValue::Str(self.identity.clone())));
        entries.push(("nickname".to_owned(), JsonValue::Str(self.nickname.clone())));
        entries.push(("password".to_owned(), JsonValue::Str(self.password.clone())));
        let r = JsonValue::Obj(entries);
        proof {
            lemma_account_keys_distinct();
            let es = r->Obj_0@;
            lemma_account_get_at(es, "author_level"@, 0);
            lemma_account_get_at(es, "create_time"@, 1);
            lemma_account_get_at(es, "description"@, 2);
            lemma_account_get_at(es, "id"@, 3);
            lemma_account_get_at(es, "identity"@, 4);
            lemma_account_get_at(es, "nickname"@, 5);
            lemma_account_get_at(es, "password"@, 6);
        }
        r
    }
}

/// Lookup in an entry list whose earlier keys all differ from `key`.
proof fn lemma_account_get_at(es: Seq<(String, JsonValue)>, key: Seq<char>, i: int)
    requires
        0 <= i < es.len(),
        es[i].0@ == key,
        forall|j: int| 0 <= j < i ==> es[j].0@ != key,
    ensures
        spec_assoc_get(es, key) == Some(es[i].1),
{
    lemma_assoc_get_skip(es, key, i);
    let tail = es.skip(i);
    assert(tail[0] == es[i]);
    assert(spec_assoc_get(tail, key) == Some(tail[0].1));
}

impl FromJson for AccountData {
    open spec fn spec_from_json(v: JsonValue, r: Result<Self, AcquireError>) -> bool {
        spec_account_from_json(v, r)
    }

    fn from_json(v: &JsonValue) -> (r: Result<Self, AcquireError>) {
        if !v.is_object() {
            return Err(AcquireError::Decode("Expected an object".to_owned()));
        }
        let author_level = match Self::read_field(v, "author_level") {
            Ok(s) => s,
            Err(e) => {
                return Err(e);
            },
        };
        let create_time = match Self::read_field(v, "create_time") {
            Ok(s) => s,
            Err(e) => {
                return Err(e);
            },
        };
        let description = match Self::read_field(v, "description") {
            Ok(s) => s,
            Err(e) => {
                return Err(e);
            },
        };
        let id = match Self::read_field(v, "id") {
            Ok(s) => s,
            Err(e) => {
                return Err(e);
            },
        };
        let identity = match Self::read_field(v, "identity") {
            Ok(s) => s,
            Err(e) => {
                return Err(e);
            },
        };
        let nickname = match Self::read_field(v, "nickname") {
            Ok(s) => s,
            Err(e) => {
                return Err(e);
            },
        };
        let password = match Self::read_field(v, "password") {
            Ok(s) => s,
            Err(e) => {
                return Err(e);
            },
        };
        Ok(AccountData { author_level, create_time, description, id, identity, nickname, password })
    }
}

/// Round trip: an element that decodes re-serializes to an object whose
/// every declared field holds the very text the element carried — a
/// field the element lacked comes back as the empty default.
pub proof fn lemma_account_roundtrip(v: JsonValue, a: AccountData, t: JsonValue)
    requires
        spec_account_from_json(v, Ok(a)),
        spec_account_to_json(a, t),
    ensures
        account_field_preserved(v, t, "author_level"@),
        account_field_preserved(v, t, "create_time"@),
        account_field_preserved(v, t, "description"@),
        account_field_preserved(v, t, "id"@),
        account_field_preserved(v, t, "identity"@),
        account_field_preserved(v, t, "nickname"@),
        account_field_preserved(v, t, "password"@),
{
}

/// The re-serialized object binds `key` to exactly the text the source
/// element decoded to.
pub open spec fn account_field_preserved(v: JsonValue, t: JsonValue, key: Seq<char>) -> bool {
    match spec_obj_get(t, key) {
        Some(x) => match x {
            JsonValue::Str(s) => s@ == account_field_str(v, key),
            _ => false,
        },
        None => false,
    }
}

/// Free-form per-user lists kept beside the account.
#[derive(Debug)]
pub struct UserData {
    pub ads: Vec<String>,
    pub answers: Vec<crate::json::JsonValue>,
    pub black_room: Vec<String>,
    pub comments: Vec<String>,
    pub emojis: Vec<String>,
    pub replies: Vec<String>,
}

/// The whole persisted data file.
#[allow(non_snake_case)]
#[derive(Debug)]
pub struct CodeMaoData {
    pub ACCOUNT_DATA: AccountData,
    pub INFO: Vec<(String, String)>,
    pub USER_DATA: UserData,
}

/// Tunable behaviour switches.
#[derive(Debug, Clone)]
pub struct Parameter {
    pub all_read_type: Vec<String>,
    pub cookie_check_url: String,
    pub log: bool,
    pub password_login_method: String,
    pub report_work_max: i32,
    pub spam_del_max: i32,
}

impl Default for Parameter {
    fn default() -> (r: Self)
        ensures
            r.all_read_type@ =~= Seq::<String>::empty(),
            r.cookie_check_url@ =~= Seq::<char>::empty(),
            r.log == false,
            r.password_login_method@ =~= Seq::<char>::empty(),
            r.report_work_max == 0,
            r.spam_del_max == 0,
    {
        Parameter {
            all_read_type: Vec::new(),
            cookie_check_url: String::new(),
            log: false,
            password_login_method: String::new(),
            report_work_max: 0,
            spam_del_max: 0,
        }
    }
}

/// Extra options handed to the search plugin.
#[derive(Debug, Clone)]
pub struct ExtraBody {
    pub enable_search: bool,
}

impl Default for ExtraBody {
    fn default() -> (r: Self)
        ensures
            r.enable_search == false,
    {
        ExtraBody { enable_search: false }
    }
}

/// Streaming options for the plugin.
#[derive(Debug, Clone)]
pub struct More {
    pub extra_body: ExtraBody,
    pub stream: bool,
}

impl Default for More {
    fn default() -> (r: Self)
        ensures
            r.extra_body.enable_search == false,
            r.stream == false,
    {
        More { extra_body: ExtraBody::default(), stream: false }
    }
}

/// One model plugin's configuration.
#[derive(Debug, Clone)]
pub struct DashscopePlugin {
    pub model: String,
    pub more: More,
}

impl Default for DashscopePlugin {
    fn default() -> (r: Self)
        ensures
            r.model@ =~= Seq::<char>::empty(),
            r.more.extra_body.enable_search == false,
            r.more.stream == false,
    {
        DashscopePlugin { model: String::new(), more: More::default() }
    }
}

/// Plugin settings.
#[allow(non_snake_case)]
#[derive(Debug, Clone)]
pub struct Plugin {
    pub DASHSCOPE: DashscopePlugin,
    pub prompt: String,
}

impl Default for Plugin {
    fn default() -> (r: Self)
        ensures
            r.DASHSCOPE.model@ =~= Seq::<char>::empty(),
            r.prompt@ =~= Seq::<char>::empty(),
    {
        Plugin { DASHSCOPE: DashscopePlugin::default(), prompt: String::new() }
    }
}

/// Program identity and the static headers every request starts from.
#[allow(non_snake_case)]
#[derive(Debug, Clone)]
pub struct Program {
    pub AUTHOR: String,
    pub HEADERS: Vec<(String, String)>,
    pub MEMBER: String,
    pub SLOGAN: String,
    pub TEAM: String,
    pub VERSION: String,
}

impl Default for Program {
    fn default() -> (r: Self)
        ensures
            r.AUTHOR@ =~= Seq::<char>::empty(),
            r.HEADERS@ =~= Seq::<(String, String)>::empty(),
            r.MEMBER@ =~= Seq::<char>::empty(),
            r.SLOGAN@ =~= Seq::<char>::empty(),
            r.TEAM@ =~= Seq::<char>::empty(),
            r.VERSION@ =~= Seq::<char>::empty(),
    {
        Program {
            AUTHOR: String::new(),
            HEADERS: Vec::new(),
            MEMBER: String::new(),
            SLOGAN: String::new(),
            TEAM: String::new(),
            VERSION: String::new(),
        }
    }
}

/// Cached counters shown between runs.
#[derive(Debug, Clone)]
pub struct CodeMaoCache {
    pub collected: i32,
    pub fans: i32,
    pub level: i32,
    pub liked: i32,
    pub nickname: String,
    pub timestamp: i64,
    pub user_id: i32,
    pub view: i32,
}

impl Default for CodeMaoCache {
    fn default() -> (r: Self)
        ensures
            r.collected == 0,
            r.fans == 0,
            r.level == 0,
            r.liked == 0,
            r.nickname@ =~= Seq::<char>::empty(),
            r.timestamp == 0,
            r.user_id == 0,
            r.view == 0,
    {
        CodeMaoCache {
            collected: 0,
            fans: 0,
            level: 0,
            liked: 0,
            nickname: String::new(),
            timestamp: 0,
            user_id: 0,
            view: 0,
        }
    }
}

/// The whole settings file: behaviour switches, plugins, program identity.
#[allow(non_snake_case)]
#[derive(Debug, Clone)]
pub struct CodeMaoSetting {
    pub PARAMETER: Parameter,
    pub PLUGIN: Plugin,
    pub PROGRAM: Program,
}

impl Default for CodeMaoSetting {
    fn default() -> (r: Self)
        ensures
            r.PARAMETER.log == false,
            r.PROGRAM.HEADERS@ =~= Seq::<(String, String)>::empty(),
    {
        CodeMaoSetting {
            PARAMETER: Parameter::default(),
            PLUGIN: Plugin::default(),
            PROGRAM: Program::default(),
        }
    }
}

/// What can go wrong when a snapshot is loaded or saved for the store.
#[derive(Debug)]
pub enum DataError {
    IoError(String),
    SerdeError(String),
    Custom(String),
}

/// An owned in-memory store of one snapshot. The caller threads it
/// explicitly through the code that needs it; any lock around it belongs
/// to the embedding program.
pub struct DataManagerImpl<T> {
    pub data: T,
}

impl<T> DataManagerImpl<T> {
    /// A store holding the given snapshot.
    pub fn new(data: T) -> (r: Self)
        ensures
            r.data == data,
    {
        DataManagerImpl { data }
    }

    /// A copy of the held snapshot.
    pub fn get_data(&self) -> (r: T) where T: Clone
        ensures
            vstd::pervasive::cloned(self.data, r),
    {
        self.data.clone()
    }

    /// Replaces the held snapshot.
    pub fn update(&mut self, new_data: T)
        ensures
            final(self).data == new_data,
    {
        self.data = new_data;
    }
}

} // verus!
