//! Spellings of the search keywords in every supported language.
//!
//! The parser has to accept every language's spelling at once, whatever the UI
//! language is. Operators (`AND`, `OR`, `NOT`, `|`, `-`) are deliberately not
//! translated: a translated operator would collide with free text.

use vstd::prelude::*;
use crate::settings::locale::{supported, supported_locale};
use crate::text::same_text;

verus! {

/// A language the search vocabulary has spellings for.
#[derive(Debug, Clone, Copy, PartialEq, Eq, Structural, Hash)]
pub enum Lang {
    En,
    Ja,
}

/// The vocabulary language for a locale: Japanese when it resolves to `ja`.
pub open spec fn lang_for_locale(locale: Seq<char>) -> Lang {
    if supported_locale(locale) == Some(seq!['j', 'a']) {
        Lang::Ja
    } else {
        Lang::En
    }
}

impl Lang {
    /// Every language, in a fixed order.
    pub fn all() -> (r: Vec<Lang>)
        ensures
            r@ == seq![Lang::En, Lang::Ja],
    {
        vec![Lang::En, Lang::Ja]
    }

    /// The vocabulary language for a UI locale tag, English when unknown.
    pub fn from_locale(locale: &str) -> (r: Self)
        ensures
            r == lang_for_locale(locale@),
    {
        proof {
            reveal_strlit("ja");
            assert("ja"@ =~= seq!['j', 'a']);
        }
        match supported(locale) {
            Some(tag) => if same_text(tag, "ja") {
                Lang::Ja
            } else {
                Lang::En
            },
            None => Lang::En,
        }
    }
}

/// A task state the search box can filter on.
#[derive(Debug, Clone, Copy, PartialEq, Eq, Structural, Hash)]
pub enum StatusKey {
    Completed,
    /// Anything still to be done: neither completed nor cancelled.
    Open,
    NotStarted,
    InProgress,
    Waiting,
    Cancelled,
}

/// The state of one task or subtask, as far as the search box cares.
#[derive(Debug, Clone, Copy, PartialEq, Eq, Structural)]
pub enum UnitStatus {
    NotStarted,
    InProgress,
    Waiting,
    Completed,
    Cancelled,
}

/// The language-neutral spelling of a state.
pub open spec fn status_key_word(k: StatusKey) -> Seq<char> {
    match k {
        StatusKey::Completed => "completed"@,
        StatusKey::Open => "open"@,
        StatusKey::NotStarted => "not-started"@,
        StatusKey::InProgress => "in-progress"@,
        StatusKey::Waiting => "waiting"@,
        StatusKey::Cancelled => "cancelled"@,
    }
}

/// Every spelling of a state, English first; the first of each language is the
/// one written back.
pub open spec fn status_spellings(k: StatusKey) -> Seq<Seq<char>> {
    match k {
        StatusKey::Completed => seq!["done"@, "completed"@, "完了"@, "完了済み"@],
        StatusKey::Open => seq!["open"@, "todo"@, "未完了"@],
        StatusKey::NotStarted => seq!["not-started"@, "未着手"@],
        StatusKey::InProgress => seq!["in-progress"@, "doing"@, "実行中"@, "進行中"@],
        StatusKey::Waiting => seq!["waiting"@, "待機中"@],
        StatusKey::Cancelled => seq!["cancelled"@, "canceled"@, "中止"@],
    }
}

/// The spelling of a state written back in `lang`.
pub open spec fn status_spelled(k: StatusKey, lang: Lang) -> Seq<char> {
    match (k, lang) {
        (StatusKey::Completed, Lang::En) => "done"@,
        (StatusKey::Completed, Lang::Ja) => "完了"@,
        (StatusKey::Open, Lang::En) => "open"@,
        (StatusKey::Open, Lang::Ja) => "未完了"@,
        (StatusKey::NotStarted, Lang::En) => "not-started"@,
        (StatusKey::NotStarted, Lang::Ja) => "未着手"@,
        (StatusKey::InProgress, Lang::En) => "in-progress"@,
        (StatusKey::InProgress, Lang::Ja) => "実行中"@,
        (StatusKey::Waiting, Lang::En) => "waiting"@,
        (StatusKey::Waiting, Lang::Ja) => "待機中"@,
        (StatusKey::Cancelled, Lang::En) => "cancelled"@,
        (StatusKey::Cancelled, Lang::Ja) => "中止"@,
    }
}

/// Whether `word` is the key or one of the spellings of `k`.
pub open spec fn names_status(k: StatusKey, word: Seq<char>) -> bool {
    match k {
        StatusKey::Completed => word == "completed"@ || word == "done"@ || word == "完了"@
            || word == "完了済み"@,
        StatusKey::Open => word == "open"@ || word == "todo"@ || word == "未完了"@,
        StatusKey::NotStarted => word == "not-started"@ || word == "未着手"@,
        StatusKey::InProgress => word == "in-progress"@ || word == "doing"@ || word == "実行中"@
            || word == "進行中"@,
        StatusKey::Waiting => word == "waiting"@ || word == "待機中"@,
        StatusKey::Cancelled => word == "cancelled"@ || word == "canceled"@ || word == "中止"@,
    }
}

/// What [`StatusKey::parse`] reads `word` as: the first state, in table order,
/// that it names.
pub open spec fn parse_status(word: Seq<char>) -> Option<StatusKey> {
    if names_status(StatusKey::Completed, word) {
        Some(StatusKey::Completed)
    } else if names_status(StatusKey::Open, word) {
        Some(StatusKey::Open)
    } else if names_status(StatusKey::NotStarted, word) {
        Some(StatusKey::NotStarted)
    } else if names_status(StatusKey::InProgress, word) {
        Some(StatusKey::InProgress)
    } else if names_status(StatusKey::Waiting, word) {
        Some(StatusKey::Waiting)
    } else if names_status(StatusKey::Cancelled, word) {
        Some(StatusKey::Cancelled)
    } else {
        None
    }
}

/// Whether `status` is one the state `k` filters for.
pub open spec fn status_matches(k: StatusKey, status: UnitStatus) -> bool {
    match k {
        StatusKey::Completed => status == UnitStatus::Completed,
        StatusKey::Open => !(status == UnitStatus::Completed || status == UnitStatus::Cancelled),
        StatusKey::NotStarted => status == UnitStatus::NotStarted,
        StatusKey::InProgress => status == UnitStatus::InProgress,
        StatusKey::Waiting => status == UnitStatus::Waiting,
        StatusKey::Cancelled => status == UnitStatus::Cancelled,
    }
}

/// The views of a list of static strings.
pub open spec fn words_of(v: Seq<&'static str>) -> Seq<Seq<char>> {
    v.map_values(|w: &'static str| w@)
}

impl StatusKey {
    /// Every state, in the order the sidebar lists them.
    pub fn all() -> (r: Vec<StatusKey>)
        ensures
            r@ == seq![
                StatusKey::Open,
                StatusKey::Completed,
                StatusKey::NotStarted,
                StatusKey::InProgress,
                StatusKey::Waiting,
                StatusKey::Cancelled,
            ],
    {
        vec![
            StatusKey::Open,
            StatusKey::Completed,
            StatusKey::NotStarted,
            StatusKey::InProgress,
            StatusKey::Waiting,
            StatusKey::Cancelled,
        ]
    }

    /// Every spelling of this state in every language, English first.
    pub fn spellings(self) -> (r: Vec<&'static str>)
        ensures
            words_of(r@) == status_spellings(self),
    {
        let r = match self {
            StatusKey::Completed => vec!["done", "completed", "完了", "完了済み"],
            StatusKey::Open => vec!["open", "todo", "未完了"],
            StatusKey::NotStarted => vec!["not-started", "未着手"],
            StatusKey::InProgress => vec!["in-progress", "doing", "実行中", "進行中"],
            StatusKey::Waiting => vec!["waiting", "待機中"],
            StatusKey::Cancelled => vec!["cancelled", "canceled", "中止"],
        };
        assert(words_of(r@) =~= status_spellings(self));
        r
    }

    /// The language-neutral spelling kept in the internal query.
    pub fn key(self) -> (r: &'static str)
        ensures
            r@ == status_key_word(self),
    {
        match self {
            StatusKey::Completed => "completed",
            StatusKey::Open => "open",
            StatusKey::NotStarted => "not-started",
            StatusKey::InProgress => "in-progress",
            StatusKey::Waiting => "waiting",
            StatusKey::Cancelled => "cancelled",
        }
    }

    /// The spelling written into the search box for `lang`.
    pub fn spell(self, lang: Lang) -> (r: &'static str)
        ensures
            r@ == status_spelled(self, lang),
    {
        match (self, lang) {
            (StatusKey::Completed, Lang::En) => "done",
            (StatusKey::Completed, Lang::Ja) => "完了",
            (StatusKey::Open, Lang::En) => "open",
            (StatusKey::Open, Lang::Ja) => "未完了",
            (StatusKey::NotStarted, Lang::En) => "not-started",
            (StatusKey::NotStarted, Lang::Ja) => "未着手",
            (StatusKey::InProgress, Lang::En) => "in-progress",
            (StatusKey::InProgress, Lang::Ja) => "実行中",
            (StatusKey::Waiting, Lang::En) => "waiting",
            (StatusKey::Waiting, Lang::Ja) => "待機中",
            (StatusKey::Cancelled, Lang::En) => "cancelled",
            (StatusKey::Cancelled, Lang::Ja) => "中止",
        }
    }

    fn names(self, word: &str) -> (r: bool)
        ensures
            r == names_status(self, word@),
    {
        match self {
            StatusKey::Completed => same_text(word, "completed") || same_text(word, "done")
                || same_text(word, "完了") || same_text(word, "完了済み"),
            StatusKey::Open => same_text(word, "open") || same_text(word, "todo") || same_text(
                word,
                "未完了",
            ),
            StatusKey::NotStarted => same_text(word, "not-started") || same_text(word, "未着手"),
            StatusKey::InProgress => same_text(word, "in-progress") || same_text(word, "doing")
                || same_text(word, "実行中") || same_text(word, "進行中"),
            StatusKey::Waiting => same_text(word, "waiting") || same_text(word, "待機中"),
            StatusKey::Cancelled => same_text(word, "cancelled") || same_text(word, "canceled")
                || same_text(word, "中止"),
        }
    }

    /// Parses a folded word in any language, or the internal key.
    pub fn parse(word: &str) -> (r: Option<Self>)
        ensures
            r == parse_status(word@),
    {
        if StatusKey::Completed.names(word) {
            Some(StatusKey::Completed)
        } else if StatusKey::Open.names(word) {
            Some(StatusKey::Open)
        } else if StatusKey::NotStarted.names(word) {
            Some(StatusKey::NotStarted)
        } else if StatusKey::InProgress.names(word) {
            Some(StatusKey::InProgress)
        } else if StatusKey::Waiting.names(word) {
            Some(StatusKey::Waiting)
        } else if StatusKey::Cancelled.names(word) {
            Some(StatusKey::Cancelled)
        } else {
            None
        }
    }

    /// Whether a unit in `status` is one this state filters for.
    pub fn matches(self, status: UnitStatus) -> (r: bool)
        ensures
            r == status_matches(self, status),
    {
        match self {
            StatusKey::Completed => status == UnitStatus::Completed,
            StatusKey::Open => !(status == UnitStatus::Completed || status
                == UnitStatus::Cancelled),
            StatusKey::NotStarted => status == UnitStatus::NotStarted,
            StatusKey::InProgress => status == UnitStatus::InProgress,
            StatusKey::Waiting => status == UnitStatus::Waiting,
            StatusKey::Cancelled => status == UnitStatus::Cancelled,
        }
    }
}

/// The kind of thing an `@` token can name.
#[derive(Debug, Clone, Copy, PartialEq, Eq, Structural, Hash)]
pub enum RefKind {
    Due,
    Status,
    Project,
    List,
    User,
}

pub open spec fn kind_key_word(k: RefKind) -> Seq<char> {
    match k {
        RefKind::Due => "due"@,
        RefKind::Status => "status"@,
        RefKind::Project => "project"@,
        RefKind::List => "list"@,
        RefKind::User => "user"@,
    }
}

pub open spec fn kind_spelled(k: RefKind, lang: Lang) -> Seq<char> {
    match (k, lang) {
        (RefKind::Due, Lang::En) => "due"@,
        (RefKind::Due, Lang::Ja) => "期限"@,
        (RefKind::Status, Lang::En) => "status"@,
        (RefKind::Status, Lang::Ja) => "状態"@,
        (RefKind::Project, Lang::En) => "project"@,
        (RefKind::Project, Lang::Ja) => "プロジェクト"@,
        (RefKind::List, Lang::En) => "list"@,
        (RefKind::List, Lang::Ja) => "リスト"@,
        (RefKind::User, Lang::En) => "user"@,
        (RefKind::User, Lang::Ja) => "ユーザー"@,
    }
}

/// Whether `word` spells the kind `k` in either language.
pub open spec fn names_kind(k: RefKind, word: Seq<char>) -> bool {
    match k {
        RefKind::Due => word == "due"@ || word == "期限"@,
        RefKind::Status => word == "status"@ || word == "状態"@,
        RefKind::Project => word == "project"@ || word == "proj"@ || word == "プロジェクト"@,
        RefKind::List => word == "list"@ || word == "リスト"@,
        RefKind::User => word == "user"@ || word == "ユーザー"@ || word == "担当"@,
    }
}

/// What [`RefKind::parse`] reads `word` as.
pub open spec fn parse_kind(word: Seq<char>) -> Option<RefKind> {
    if names_kind(RefKind::Due, word) {
        Some(RefKind::Due)
    } else if names_kind(RefKind::Status, word) {
        Some(RefKind::Status)
    } else if names_kind(RefKind::Project, word) {
        Some(RefKind::Project)
    } else if names_kind(RefKind::List, word) {
        Some(RefKind::List)
    } else if names_kind(RefKind::User, word) {
        Some(RefKind::User)
    } else {
        None
    }
}

impl RefKind {
    /// The order candidates are offered in when a name fits several kinds.
    pub fn all() -> (r: Vec<RefKind>)
        ensures
            r@ == seq![RefKind::Due, RefKind::Status, RefKind::Project, RefKind::List, RefKind::User],
    {
        vec![RefKind::Due, RefKind::Status, RefKind::Project, RefKind::List, RefKind::User]
    }

    fn names(self, word: &str) -> (r: bool)
        ensures
            r == names_kind(self, word@),
    {
        match self {
            RefKind::Due => same_text(word, "due") || same_text(word, "期限"),
            RefKind::Status => same_text(word, "status") || same_text(word, "状態"),
            RefKind::Project => same_text(word, "project") || same_text(word, "proj") || same_text(
                word,
                "プロジェクト",
            ),
            RefKind::List => same_text(word, "list") || same_text(word, "リスト"),
            RefKind::User => same_text(word, "user") || same_text(word, "ユーザー") || same_text(
                word,
                "担当",
            ),
        }
    }

    /// Parses the folded word before the `:` of `@<kind>:<name>`.
    pub fn parse(word: &str) -> (r: Option<Self>)
        ensures
            r == parse_kind(word@),
    {
        if RefKind::Due.names(word) {
            Some(RefKind::Due)
        } else if RefKind::Status.names(word) {
            Some(RefKind::Status)
        } else if RefKind::Project.names(word) {
            Some(RefKind::Project)
        } else if RefKind::List.names(word) {
            Some(RefKind::List)
        } else if RefKind::User.names(word) {
            Some(RefKind::User)
        } else {
            None
        }
    }

    /// The language-neutral spelling kept in the internal query.
    pub fn key(self) -> (r: &'static str)
        ensures
            r@ == kind_key_word(self),
    {
        match self {
            RefKind::Due => "due",
            RefKind::Status => "status",
            RefKind::Project => "project",
            RefKind::List => "list",
            RefKind::User => "user",
        }
    }

    pub fn spell(self, lang: Lang) -> (r: &'static str)
        ensures
            r@ == kind_spelled(self, lang),
    {
        match (self, lang) {
            (RefKind::Due, Lang::En) => "due",
            (RefKind::Due, Lang::Ja) => "期限",
            (RefKind::Status, Lang::En) => "status",
            (RefKind::Status, Lang::Ja) => "状態",
            (RefKind::Project, Lang::En) => "project",
            (RefKind::Project, Lang::Ja) => "プロジェクト",
            (RefKind::List, Lang::En) => "list",
            (RefKind::List, Lang::Ja) => "リスト",
            (RefKind::User, Lang::En) => "user",
            (RefKind::User, Lang::Ja) => "ユーザー",
        }
    }
}

/// A text field an `@<field>:<value>` token searches by partial match.
#[derive(Debug, Clone, Copy, PartialEq, Eq, Structural, Hash)]
pub enum TextField {
    Task,
    Note,
    Subtask,
    SubtaskNote,
}

pub open spec fn parse_field(word: Seq<char>) -> Option<TextField> {
    if word == "task"@ {
        Some(TextField::Task)
    } else if word == "note"@ {
        Some(TextField::Note)
    } else if word == "subtask"@ {
        Some(TextField::Subtask)
    } else if word == "subtasknote"@ {
        Some(TextField::SubtaskNote)
    } else {
        None
    }
}

impl TextField {
    pub fn parse(word: &str) -> (r: Option<Self>)
        ensures
            r == parse_field(word@),
    {
        if same_text(word, "task") {
            Some(TextField::Task)
        } else if same_text(word, "note") {
            Some(TextField::Note)
        } else if same_text(word, "subtask") {
            Some(TextField::Subtask)
        } else if same_text(word, "subtasknote") {
            Some(TextField::SubtaskNote)
        } else {
            None
        }
    }
}

/// The characters of every state spelling.
pub proof fn lemma_status_words()
    ensures
        "done"@ == seq!['d', 'o', 'n', 'e'],
        "completed"@ == seq!['c', 'o', 'm', 'p', 'l', 'e', 't', 'e', 'd'],
        "完了"@ == seq!['完', '了'],
        "完了済み"@ == seq!['完', '了', '済', 'み'],
        "open"@ == seq!['o', 'p', 'e', 'n'],
        "todo"@ == seq!['t', 'o', 'd', 'o'],
        "未完了"@ == seq!['未', '完', '了'],
        "not-started"@ == seq!['n', 'o', 't', '-', 's', 't', 'a', 'r', 't', 'e', 'd'],
        "未着手"@ == seq!['未', '着', '手'],
        "in-progress"@ == seq!['i', 'n', '-', 'p', 'r', 'o', 'g', 'r', 'e', 's', 's'],
        "doing"@ == seq!['d', 'o', 'i', 'n', 'g'],
        "実行中"@ == seq!['実', '行', '中'],
        "進行中"@ == seq!['進', '行', '中'],
        "waiting"@ == seq!['w', 'a', 'i', 't', 'i', 'n', 'g'],
        "待機中"@ == seq!['待', '機', '中'],
        "cancelled"@ == seq!['c', 'a', 'n', 'c', 'e', 'l', 'l', 'e', 'd'],
        "canceled"@ == seq!['c', 'a', 'n', 'c', 'e', 'l', 'e', 'd'],
        "中止"@ == seq!['中', '止'],
{
    reveal_strlit("done");
    reveal_strlit("completed");
    reveal_strlit("完了");
    reveal_strlit("完了済み");
    reveal_strlit("open");
    reveal_strlit("todo");
    reveal_strlit("未完了");
    reveal_strlit("not-started");
    reveal_strlit("未着手");
    reveal_strlit("in-progress");
    reveal_strlit("doing");
    reveal_strlit("実行中");
    reveal_strlit("進行中");
    reveal_strlit("waiting");
    reveal_strlit("待機中");
    reveal_strlit("cancelled");
    reveal_strlit("canceled");
    reveal_strlit("中止");
    assert("done"@ =~= seq!['d', 'o', 'n', 'e']);
    assert("completed"@ =~= seq!['c', 'o', 'm', 'p', 'l', 'e', 't', 'e', 'd']);
    assert("完了"@ =~= seq!['完', '了']);
    assert("完了済み"@ =~= seq!['完', '了', '済', 'み']);
    assert("open"@ =~= seq!['o', 'p', 'e', 'n']);
    assert("todo"@ =~= seq!['t', 'o', 'd', 'o']);
    assert("未完了"@ =~= seq!['未', '完', '了']);
    assert("not-started"@ =~= seq!['n', 'o', 't', '-', 's', 't', 'a', 'r', 't', 'e', 'd']);
    assert("未着手"@ =~= seq!['未', '着', '手']);
    assert("in-progress"@ =~= seq!['i', 'n', '-', 'p', 'r', 'o', 'g', 'r', 'e', 's', 's']);
    assert("doing"@ =~= seq!['d', 'o', 'i', 'n', 'g']);
    assert("実行中"@ =~= seq!['実', '行', '中']);
    assert("進行中"@ =~= seq!['進', '行', '中']);
    assert("waiting"@ =~= seq!['w', 'a', 'i', 't', 'i', 'n', 'g']);
    assert("待機中"@ =~= seq!['待', '機', '中']);
    assert("cancelled"@ =~= seq!['c', 'a', 'n', 'c', 'e', 'l', 'l', 'e', 'd']);
    assert("canceled"@ =~= seq!['c', 'a', 'n', 'c', 'e', 'l', 'e', 'd']);
    assert("中止"@ =~= seq!['中', '止']);
}
/// The characters of every kind spelling.
pub proof fn lemma_kind_words()
    ensures
        "due"@ == seq!['d', 'u', 'e'],
        "期限"@ == seq!['期', '限'],
        "status"@ == seq!['s', 't', 'a', 't', 'u', 's'],
        "状態"@ == seq!['状', '態'],
        "project"@ == seq!['p', 'r', 'o', 'j', 'e', 'c', 't'],
        "proj"@ == seq!['p', 'r', 'o', 'j'],
        "プロジェクト"@ == seq!['プ', 'ロ', 'ジ', 'ェ', 'ク', 'ト'],
        "list"@ == seq!['l', 'i', 's', 't'],
        "リスト"@ == seq!['リ', 'ス', 'ト'],
        "user"@ == seq!['u', 's', 'e', 'r'],
        "ユーザー"@ == seq!['ユ', 'ー', 'ザ', 'ー'],
        "担当"@ == seq!['担', '当'],
{
    reveal_strlit("due");
    reveal_strlit("期限");
    reveal_strlit("status");
    reveal_strlit("状態");
    reveal_strlit("project");
    reveal_strlit("proj");
    reveal_strlit("プロジェクト");
    reveal_strlit("list");
    reveal_strlit("リスト");
    reveal_strlit("user");
    reveal_strlit("ユーザー");
    reveal_strlit("担当");
    assert("due"@ =~= seq!['d', 'u', 'e']);
    assert("期限"@ =~= seq!['期', '限']);
    assert("status"@ =~= seq!['s', 't', 'a', 't', 'u', 's']);
    assert("状態"@ =~= seq!['状', '態']);
    assert("project"@ =~= seq!['p', 'r', 'o', 'j', 'e', 'c', 't']);
    assert("proj"@ =~= seq!['p', 'r', 'o', 'j']);
    assert("プロジェクト"@ =~= seq!['プ', 'ロ', 'ジ', 'ェ', 'ク', 'ト']);
    assert("list"@ =~= seq!['l', 'i', 's', 't']);
    assert("リスト"@ =~= seq!['リ', 'ス', 'ト']);
    assert("user"@ =~= seq!['u', 's', 'e', 'r']);
    assert("ユーザー"@ =~= seq!['ユ', 'ー', 'ザ', 'ー']);
    assert("担当"@ =~= seq!['担', '当']);
}
/// Every state reads back from its key and from its spelling in either
/// language, so a keyword written into the search box or the internal query
/// always means the state it was written for.
pub proof fn law_status_spellings_round_trip(k: StatusKey, lang: Lang)
    ensures
        parse_status(status_spelled(k, lang)) == Some(k),
        parse_status(status_key_word(k)) == Some(k),
{
    lemma_status_words();
}

/// Every kind reads back from its key and from its spelling in either language.
pub proof fn law_kind_spellings_round_trip(k: RefKind, lang: Lang)
    ensures
        parse_kind(kind_spelled(k, lang)) == Some(k),
        parse_kind(kind_key_word(k)) == Some(k),
{
    lemma_kind_words();
}

} // verus!
