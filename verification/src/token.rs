//! The tokens that the lexer hands to the parser.

use vstd::prelude::*;
use crate::strings::same_text;

verus! {

/// A location in the source passed to the lexer.
#[derive(Clone, Copy, PartialEq, Eq, Structural, Hash, Debug)]
pub struct Span {
    /// Offset in bytes.
    pub offset: u32,
    /// The amount of bytes this location encompasses.
    pub len: u32,
}

impl Span {
    /// Create a new empty span.
    pub fn empty() -> (span: Self)
        ensures
            span == (Span { offset: 0, len: 0 }),
    {
        Span { offset: 0, len: 0 }
    }

    pub fn is_empty(&self) -> (empty: bool)
        ensures
            empty == (self.len == 0),
    {
        self.len == 0
    }

    /// One past the last byte of the span.
    pub open spec fn end(self) -> int {
        self.offset + self.len
    }
}

#[derive(Clone, Copy, PartialEq, Eq, Structural, Hash, Debug)]
pub enum Operator {
    /// `!`
    Not,
    /// `+`
    Add,
    /// `-`
    Subtract,
    /// `÷`
    Divide,
    /// `×` or `∙`
    Mult,
    /// `||`
    Or,
    /// `&&`
    And,
    /// `<=`
    LessEqual,
    /// `>=`
    GreaterEqual,
    /// `*`
    Star,
    /// `**`
    Power,
    /// `=`
    Equal,
    /// `==`
    Exact,
    /// `!=`
    NotEqual,
    /// `*=`
    AllEqual,
    /// `?=`
    AnyEqual,
    /// `~`
    Like,
    /// `!~`
    NotLike,
    /// `*~`
    AllLike,
    /// `?~`
    AnyLike,
    /// `∋`
    Contains,
    /// `∌`
    NotContains,
    /// `⊇`
    ContainsAll,
    /// `⊃`
    ContainsAny,
    /// `⊅`
    ContainsNone,
    /// `∈`
    Inside,
    /// `∉`
    NotInside,
    /// `⊆`
    AllInside,
    /// `⊂`
    AnyInside,
    /// `⊄`
    NoneInside,
    /// `@123@`
    Matches,
    /// `+=`
    Inc,
    /// `-=`
    Dec,
    /// `+?=`
    Ext,
    /// `??`
    Tco,
    /// `?:`
    Nco,
}

impl Operator {
    /// How the operator is shown in messages: its symbol between single quotes.
    pub open spec fn text(self) -> Seq<char> {
        match self {
            Operator::Not => "'!'"@,
            Operator::Add => "'+'"@,
            Operator::Subtract => "'-'"@,
            Operator::Divide => "'÷'"@,
            Operator::Mult => "'×'"@,
            Operator::Or => "'||'"@,
            Operator::And => "'&&'"@,
            Operator::LessEqual => "'<='"@,
            Operator::GreaterEqual => "'>='"@,
            Operator::Star => "'*'"@,
            Operator::Power => "'**'"@,
            Operator::Equal => "'='"@,
            Operator::Exact => "'=='"@,
            Operator::NotEqual => "'!='"@,
            Operator::AllEqual => "'*='"@,
            Operator::AnyEqual => "'?='"@,
            Operator::Like => "'~'"@,
            Operator::NotLike => "'!~'"@,
            Operator::AllLike => "'*~'"@,
            Operator::AnyLike => "'?~'"@,
            Operator::Contains => "'∋'"@,
            Operator::NotContains => "'∌'"@,
            Operator::ContainsAll => "'⊇'"@,
            Operator::ContainsAny => "'⊃'"@,
            Operator::ContainsNone => "'⊅'"@,
            Operator::Inside => "'∈'"@,
            Operator::NotInside => "'∉'"@,
            Operator::AllInside => "'⊆'"@,
            Operator::AnyInside => "'⊂'"@,
            Operator::NoneInside => "'⊄'"@,
            Operator::Matches => "'@@'"@,
            Operator::Inc => "'+='"@,
            Operator::Dec => "'-='"@,
            Operator::Ext => "'+?='"@,
            Operator::Tco => "'??'"@,
            Operator::Nco => "'?:'"@,
        }
    }

    pub fn as_str(&self) -> (s: &'static str)
        ensures
            s@ == self.text(),
    {
        match self {
            Operator::Not => "'!'",
            Operator::Add => "'+'",
            Operator::Subtract => "'-'",
            Operator::Divide => "'÷'",
            Operator::Mult => "'×'",
            Operator::Or => "'||'",
            Operator::And => "'&&'",
            Operator::LessEqual => "'<='",
            Operator::GreaterEqual => "'>='",
            Operator::Star => "'*'",
            Operator::Power => "'**'",
            Operator::Equal => "'='",
            Operator::Exact => "'=='",
            Operator::NotEqual => "'!='",
            Operator::AllEqual => "'*='",
            Operator::AnyEqual => "'?='",
            Operator::Like => "'~'",
            Operator::NotLike => "'!~'",
            Operator::AllLike => "'*~'",
            Operator::AnyLike => "'?~'",
            Operator::Contains => "'∋'",
            Operator::NotContains => "'∌'",
            Operator::ContainsAll => "'⊇'",
            Operator::ContainsAny => "'⊃'",
            Operator::ContainsNone => "'⊅'",
            Operator::Inside => "'∈'",
            Operator::NotInside => "'∉'",
            Operator::AllInside => "'⊆'",
            Operator::AnyInside => "'⊂'",
            Operator::NoneInside => "'⊄'",
            Operator::Matches => "'@@'",
            Operator::Inc => "'+='",
            Operator::Dec => "'-='",
            Operator::Ext => "'+?='",
            Operator::Tco => "'??'",
            Operator::Nco => "'?:'",
        }
    }
}

/// A delimiting token, denoting the start or end of a certain production.
#[derive(Clone, Copy, PartialEq, Eq, Structural, Hash, Debug)]
pub enum Delim {
    /// `()`
    Paren,
    /// `[]`
    Bracket,
    /// `{}`
    Brace,
}

/// A geometry kind that a field type may name.
#[derive(Clone, Copy, PartialEq, Eq, Structural, Hash, Debug)]
pub enum GeometryName {
    Feature,
    Point,
    Line,
    Polygon,
    Multipoint,
    Multiline,
    Multipolygon,
    Collection,
}

impl GeometryName {
    pub open spec fn text(self) -> Seq<char> {
        match self {
            GeometryName::Feature => "feature"@,
            GeometryName::Point => "point"@,
            GeometryName::Line => "line"@,
            GeometryName::Polygon => "polygon"@,
            GeometryName::Multipoint => "multipoint"@,
            GeometryName::Multiline => "multiline"@,
            GeometryName::Multipolygon => "multipolygon"@,
            GeometryName::Collection => "collection"@,
        }
    }

    pub fn as_str(&self) -> (s: &'static str)
        ensures
            s@ == self.text(),
    {
        match self {
            GeometryName::Feature => "feature",
            GeometryName::Point => "point",
            GeometryName::Line => "line",
            GeometryName::Polygon => "polygon",
            GeometryName::Multipoint => "multipoint",
            GeometryName::Multiline => "multiline",
            GeometryName::Multipolygon => "multipolygon",
            GeometryName::Collection => "collection",
        }
    }

    /// Finds the geometry written as `text`, which must already be in upper case.
    pub fn from_text(text: &str) -> (found: Option<Self>)
        ensures
            match found {
                Some(k) => k.upper_text() == text@,
                None => forall|k: Self| k.upper_text() != text@,
            },
    {
        if same_text(text, "FEATURE") {
            Some(GeometryName::Feature)
        } else if same_text(text, "POINT") {
            Some(GeometryName::Point)
        } else if same_text(text, "LINE") {
            Some(GeometryName::Line)
        } else if same_text(text, "POLYGON") {
            Some(GeometryName::Polygon)
        } else if same_text(text, "MULTIPOINT") {
            Some(GeometryName::Multipoint)
        } else if same_text(text, "MULTILINE") {
            Some(GeometryName::Multiline)
        } else if same_text(text, "MULTIPOLYGON") {
            Some(GeometryName::Multipolygon)
        } else if same_text(text, "COLLECTION") {
            Some(GeometryName::Collection)
        } else {
            None
        }
    }

    /// The name in upper case, as an identifier is compared with it.
    pub open spec fn upper_text(self) -> Seq<char> {
        match self {
            GeometryName::Feature => "FEATURE"@,
            GeometryName::Point => "POINT"@,
            GeometryName::Line => "LINE"@,
            GeometryName::Polygon => "POLYGON"@,
            GeometryName::Multipoint => "MULTIPOINT"@,
            GeometryName::Multiline => "MULTILINE"@,
            GeometryName::Multipolygon => "MULTIPOLYGON"@,
            GeometryName::Collection => "COLLECTION"@,
        }
    }
}

/// A distance measure that an index may name.
#[derive(Clone, Copy, PartialEq, Eq, Structural, Hash, Debug)]
pub enum DistanceKind {
    Euclidean,
    Manhattan,
    Cosine,
    Hamming,
    Mahalanobis,
    Minkowski,
}

impl DistanceKind {
    pub open spec fn text(self) -> Seq<char> {
        match self {
            DistanceKind::Euclidean => "EUCLIDEAN"@,
            DistanceKind::Manhattan => "MANHATTAN"@,
            DistanceKind::Cosine => "COSINE"@,
            DistanceKind::Hamming => "HAMMING"@,
            DistanceKind::Mahalanobis => "MAHALANOBIS"@,
            DistanceKind::Minkowski => "MINKOWSKI"@,
        }
    }

    pub fn as_str(&self) -> (s: &'static str)
        ensures
            s@ == self.text(),
    {
        match self {
            DistanceKind::Euclidean => "EUCLIDEAN",
            DistanceKind::Manhattan => "MANHATTAN",
            DistanceKind::Cosine => "COSINE",
            DistanceKind::Hamming => "HAMMING",
            DistanceKind::Mahalanobis => "MAHALANOBIS",
            DistanceKind::Minkowski => "MINKOWSKI",
        }
    }

    /// Finds the distance written as `text`, which must already be in upper case.
    pub fn from_text(text: &str) -> (found: Option<Self>)
        ensures
            match found {
                Some(k) => k.upper_text() == text@,
                None => forall|k: Self| k.upper_text() != text@,
            },
    {
        if same_text(text, "EUCLIDEAN") {
            Some(DistanceKind::Euclidean)
        } else if same_text(text, "MANHATTAN") {
            Some(DistanceKind::Manhattan)
        } else if same_text(text, "COSINE") {
            Some(DistanceKind::Cosine)
        } else if same_text(text, "HAMMING") {
            Some(DistanceKind::Hamming)
        } else if same_text(text, "MAHALANOBIS") {
            Some(DistanceKind::Mahalanobis)
        } else if same_text(text, "MINKOWSKI") {
            Some(DistanceKind::Minkowski)
        } else {
            None
        }
    }

    /// The name in upper case, as an identifier is compared with it.
    pub open spec fn upper_text(self) -> Seq<char> {
        match self {
            DistanceKind::Euclidean => "EUCLIDEAN"@,
            DistanceKind::Manhattan => "MANHATTAN"@,
            DistanceKind::Cosine => "COSINE"@,
            DistanceKind::Hamming => "HAMMING"@,
            DistanceKind::Mahalanobis => "MAHALANOBIS"@,
            DistanceKind::Minkowski => "MINKOWSKI"@,
        }
    }
}

/// A reserved word of the query language.
#[derive(Clone, Copy, PartialEq, Eq, Structural, Hash, Debug)]
pub enum Keyword {
    After,
    All,
    And,
    As,
    Assert,
    Before,
    Begin,
    By,
    Cancel,
    Changefeed,
    Commit,
    Content,
    Create,
    Database,
    Db,
    Define,
    Delete,
    Diff,
    Distance,
    Else,
    End,
    False,
    Fetch,
    Field,
    Fn,
    For,
    From,
    Full,
    Group,
    If,
    In,
    Index,
    Info,
    Insert,
    Into,
    Is,
    Kv,
    Let,
    Limit,
    Merge,
    Namespace,
    NoneWord,
    Not,
    Ns,
    Null,
    On,
    Only,
    Or,
    Order,
    Parallel,
    Patch,
    Permissions,
    Relate,
    Remove,
    Replace,
    Return,
    Root,
    Scope,
    Select,
    SetWord,
    Start,
    Table,
    Then,
    Timeout,
    Token,
    Transaction,
    True,
    Type,
    Unset,
    Update,
    Use,
    User,
    Value,
    Where,
}

impl Keyword {
    /// The text this keyword is written as, in upper case.
    pub open spec fn text(self) -> Seq<char> {
        match self {
            Keyword::After => "AFTER"@,
            Keyword::All => "ALL"@,
            Keyword::And => "AND"@,
            Keyword::As => "AS"@,
            Keyword::Assert => "ASSERT"@,
            Keyword::Before => "BEFORE"@,
            Keyword::Begin => "BEGIN"@,
            Keyword::By => "BY"@,
            Keyword::Cancel => "CANCEL"@,
            Keyword::Changefeed => "CHANGEFEED"@,
            Keyword::Commit => "COMMIT"@,
            Keyword::Content => "CONTENT"@,
            Keyword::Create => "CREATE"@,
            Keyword::Database => "DATABASE"@,
            Keyword::Db => "DB"@,
            Keyword::Define => "DEFINE"@,
            Keyword::Delete => "DELETE"@,
            Keyword::Diff => "DIFF"@,
            Keyword::Distance => "DISTANCE"@,
            Keyword::Else => "ELSE"@,
            Keyword::End => "END"@,
            Keyword::False => "FALSE"@,
            Keyword::Fetch => "FETCH"@,
            Keyword::Field => "FIELD"@,
            Keyword::Fn => "FN"@,
            Keyword::For => "FOR"@,
            Keyword::From => "FROM"@,
            Keyword::Full => "FULL"@,
            Keyword::Group => "GROUP"@,
            Keyword::If => "IF"@,
            Keyword::In => "IN"@,
            Keyword::Index => "INDEX"@,
            Keyword::Info => "INFO"@,
            Keyword::Insert => "INSERT"@,
            Keyword::Into => "INTO"@,
            Keyword::Is => "IS"@,
            Keyword::Kv => "KV"@,
            Keyword::Let => "LET"@,
            Keyword::Limit => "LIMIT"@,
            Keyword::Merge => "MERGE"@,
            Keyword::Namespace => "NAMESPACE"@,
            Keyword::NoneWord => "NONE"@,
            Keyword::Not => "NOT"@,
            Keyword::Ns => "NS"@,
            Keyword::Null => "NULL"@,
            Keyword::On => "ON"@,
            Keyword::Only => "ONLY"@,
            Keyword::Or => "OR"@,
            Keyword::Order => "ORDER"@,
            Keyword::Parallel => "PARALLEL"@,
            Keyword::Patch => "PATCH"@,
            Keyword::Permissions => "PERMISSIONS"@,
            Keyword::Relate => "RELATE"@,
            Keyword::Remove => "REMOVE"@,
            Keyword::Replace => "REPLACE"@,
            Keyword::Return => "RETURN"@,
            Keyword::Root => "ROOT"@,
            Keyword::Scope => "SCOPE"@,
            Keyword::Select => "SELECT"@,
            Keyword::SetWord => "SET"@,
            Keyword::Start => "START"@,
            Keyword::Table => "TABLE"@,
            Keyword::Then => "THEN"@,
            Keyword::Timeout => "TIMEOUT"@,
            Keyword::Token => "TOKEN"@,
            Keyword::Transaction => "TRANSACTION"@,
            Keyword::True => "TRUE"@,
            Keyword::Type => "TYPE"@,
            Keyword::Unset => "UNSET"@,
            Keyword::Update => "UPDATE"@,
            Keyword::Use => "USE"@,
            Keyword::User => "USER"@,
            Keyword::Value => "VALUE"@,
            Keyword::Where => "WHERE"@,
        }
    }

    pub fn as_str(&self) -> (s: &'static str)
        ensures
            s@ == self.text(),
    {
        match self {
            Keyword::After => "AFTER",
            Keyword::All => "ALL",
            Keyword::And => "AND",
            Keyword::As => "AS",
            Keyword::Assert => "ASSERT",
            Keyword::Before => "BEFORE",
            Keyword::Begin => "BEGIN",
            Keyword::By => "BY",
            Keyword::Cancel => "CANCEL",
            Keyword::Changefeed => "CHANGEFEED",
            Keyword::Commit => "COMMIT",
            Keyword::Content => "CONTENT",
            Keyword::Create => "CREATE",
            Keyword::Database => "DATABASE",
            Keyword::Db => "DB",
            Keyword::Define => "DEFINE",
            Keyword::Delete => "DELETE",
            Keyword::Diff => "DIFF",
            Keyword::Distance => "DISTANCE",
            Keyword::Else => "ELSE",
            Keyword::End => "END",
            Keyword::False => "FALSE",
            Keyword::Fetch => "FETCH",
            Keyword::Field => "FIELD",
            Keyword::Fn => "FN",
            Keyword::For => "FOR",
            Keyword::From => "FROM",
            Keyword::Full => "FULL",
            Keyword::Group => "GROUP",
            Keyword::If => "IF",
            Keyword::In => "IN",
            Keyword::Index => "INDEX",
            Keyword::Info => "INFO",
            Keyword::Insert => "INSERT",
            Keyword::Into => "INTO",
            Keyword::Is => "IS",
            Keyword::Kv => "KV",
            Keyword::Let => "LET",
            Keyword::Limit => "LIMIT",
            Keyword::Merge => "MERGE",
            Keyword::Namespace => "NAMESPACE",
            Keyword::NoneWord => "NONE",
            Keyword::Not => "NOT",
            Keyword::Ns => "NS",
            Keyword::Null => "NULL",
            Keyword::On => "ON",
            Keyword::Only => "ONLY",
            Keyword::Or => "OR",
            Keyword::Order => "ORDER",
            Keyword::Parallel => "PARALLEL",
            Keyword::Patch => "PATCH",
            Keyword::Permissions => "PERMISSIONS",
            Keyword::Relate => "RELATE",
            Keyword::Remove => "REMOVE",
            Keyword::Replace => "REPLACE",
            Keyword::Return => "RETURN",
            Keyword::Root => "ROOT",
            Keyword::Scope => "SCOPE",
            Keyword::Select => "SELECT",
            Keyword::SetWord => "SET",
            Keyword::Start => "START",
            Keyword::Table => "TABLE",
            Keyword::Then => "THEN",
            Keyword::Timeout => "TIMEOUT",
            Keyword::Token => "TOKEN",
            Keyword::Transaction => "TRANSACTION",
            Keyword::True => "TRUE",
            Keyword::Type => "TYPE",
            Keyword::Unset => "UNSET",
            Keyword::Update => "UPDATE",
            Keyword::Use => "USE",
            Keyword::User => "USER",
            Keyword::Value => "VALUE",
            Keyword::Where => "WHERE",
        }
    }

    /// Finds the keyword written as `text`, which must already be in upper case.
    pub fn from_text(text: &str) -> (found: Option<Self>)
        ensures
            match found {
                Some(k) => k.text() == text@,
                None => forall|k: Self| k.text() != text@,
            },
    {
        if same_text(text, "AFTER") {
            Some(Keyword::After)
        } else if same_text(text, "ALL") {
            Some(Keyword::All)
        } else if same_text(text, "AND") {
            Some(Keyword::And)
        } else if same_text(text, "AS") {
            Some(Keyword::As)
        } else if same_text(text, "ASSERT") {
            Some(Keyword::Assert)
        } else if same_text(text, "BEFORE") {
            Some(Keyword::Before)
        } else if same_text(text, "BEGIN") {
            Some(Keyword::Begin)
        } else if same_text(text, "BY") {
            Some(Keyword::By)
        } else if same_text(text, "CANCEL") {
            Some(Keyword::Cancel)
        } else if same_text(text, "CHANGEFEED") {
            Some(Keyword::Changefeed)
        } else if same_text(text, "COMMIT") {
            Some(Keyword::Commit)
        } else if same_text(text, "CONTENT") {
            Some(Keyword::Content)
        } else if same_text(text, "CREATE") {
            Some(Keyword::Create)
        } else if same_text(text, "DATABASE") {
            Some(Keyword::Database)
        } else if same_text(text, "DB") {
            Some(Keyword::Db)
        } else if same_text(text, "DEFINE") {
            Some(Keyword::Define)
        } else if same_text(text, "DELETE") {
            Some(Keyword::Delete)
        } else if same_text(text, "DIFF") {
            Some(Keyword::Diff)
        } else if same_text(text, "DISTANCE") {
            Some(Keyword::Distance)
        } else if same_text(text, "ELSE") {
            Some(Keyword::Else)
        } else if same_text(text, "END") {
            Some(Keyword::End)
        } else if same_text(text, "FALSE") {
            Some(Keyword::False)
        } else if same_text(text, "FETCH") {
            Some(Keyword::Fetch)
        } else if same_text(text, "FIELD") {
            Some(Keyword::Field)
        } else if same_text(text, "FN") {
            Some(Keyword::Fn)
        } else if same_text(text, "FOR") {
            Some(Keyword::For)
        } else if same_text(text, "FROM") {
            Some(Keyword::From)
        } else if same_text(text, "FULL") {
            Some(Keyword::Full)
        } else if same_text(text, "GROUP") {
            Some(Keyword::Group)
        } else if same_text(text, "IF") {
            Some(Keyword::If)
        } else if same_text(text, "IN") {
            Some(Keyword::In)
        } else if same_text(text, "INDEX") {
            Some(Keyword::Index)
        } else if same_text(text, "INFO") {
            Some(Keyword::Info)
        } else if same_text(text, "INSERT") {
            Some(Keyword::Insert)
        } else if same_text(text, "INTO") {
            Some(Keyword::Into)
        } else if same_text(text, "IS") {
            Some(Keyword::Is)
        } else if same_text(text, "KV") {
            Some(Keyword::Kv)
        } else if same_text(text, "LET") {
            Some(Keyword::Let)
        } else if same_text(text, "LIMIT") {
            Some(Keyword::Limit)
        } else if same_text(text, "MERGE") {
            Some(Keyword::Merge)
        } else if same_text(text, "NAMESPACE") {
            Some(Keyword::Namespace)
        } else if same_text(text, "NONE") {
            Some(Keyword::NoneWord)
        } else if same_text(text, "NOT") {
            Some(Keyword::Not)
        } else if same_text(text, "NS") {
            Some(Keyword::Ns)
        } else if same_text(text, "NULL") {
            Some(Keyword::Null)
        } else if same_text(text, "ON") {
            Some(Keyword::On)
        } else if same_text(text, "ONLY") {
            Some(Keyword::Only)
        } else if same_text(text, "OR") {
            Some(Keyword::Or)
        } else if same_text(text, "ORDER") {
            Some(Keyword::Order)
        } else if same_text(text, "PARALLEL") {
            Some(Keyword::Parallel)
        } else if same_text(text, "PATCH") {
            Some(Keyword::Patch)
        } else if same_text(text, "PERMISSIONS") {
            Some(Keyword::Permissions)
        } else if same_text(text, "RELATE") {
            Some(Keyword::Relate)
        } else if same_text(text, "REMOVE") {
            Some(Keyword::Remove)
        } else if same_text(text, "REPLACE") {
            Some(Keyword::Replace)
        } else if same_text(text, "RETURN") {
            Some(Keyword::Return)
        } else if same_text(text, "ROOT") {
            Some(Keyword::Root)
        } else if same_text(text, "SCOPE") {
            Some(Keyword::Scope)
        } else if same_text(text, "SELECT") {
            Some(Keyword::Select)
        } else if same_text(text, "SET") {
            Some(Keyword::SetWord)
        } else if same_text(text, "START") {
            Some(Keyword::Start)
        } else if same_text(text, "TABLE") {
            Some(Keyword::Table)
        } else if same_text(text, "THEN") {
            Some(Keyword::Then)
        } else if same_text(text, "TIMEOUT") {
            Some(Keyword::Timeout)
        } else if same_text(text, "TOKEN") {
            Some(Keyword::Token)
        } else if same_text(text, "TRANSACTION") {
            Some(Keyword::Transaction)
        } else if same_text(text, "TRUE") {
            Some(Keyword::True)
        } else if same_text(text, "TYPE") {
            Some(Keyword::Type)
        } else if same_text(text, "UNSET") {
            Some(Keyword::Unset)
        } else if same_text(text, "UPDATE") {
            Some(Keyword::Update)
        } else if same_text(text, "USE") {
            Some(Keyword::Use)
        } else if same_text(text, "USER") {
            Some(Keyword::User)
        } else if same_text(text, "VALUE") {
            Some(Keyword::Value)
        } else if same_text(text, "WHERE") {
            Some(Keyword::Where)
        } else {
            None
        }
    }
}

/// A signature algorithm that a token definition may name.
#[derive(Clone, Copy, PartialEq, Eq, Structural, Hash, Debug)]
pub enum Algorithm {
    EdDSA,
    Es256,
    Es384,
    Es512,
    Hs256,
    Hs384,
    Hs512,
    Ps256,
    Ps384,
    Ps512,
    Rs256,
    Rs384,
    Rs512,
}

impl Algorithm {
    /// The text this algorithm is written as, in upper case.
    pub open spec fn text(self) -> Seq<char> {
        match self {
            Algorithm::EdDSA => "EDDSA"@,
            Algorithm::Es256 => "ES256"@,
            Algorithm::Es384 => "ES384"@,
            Algorithm::Es512 => "ES512"@,
            Algorithm::Hs256 => "HS256"@,
            Algorithm::Hs384 => "HS384"@,
            Algorithm::Hs512 => "HS512"@,
            Algorithm::Ps256 => "PS256"@,
            Algorithm::Ps384 => "PS384"@,
            Algorithm::Ps512 => "PS512"@,
            Algorithm::Rs256 => "RS256"@,
            Algorithm::Rs384 => "RS384"@,
            Algorithm::Rs512 => "RS512"@,
        }
    }

    pub fn as_str(&self) -> (s: &'static str)
        ensures
            s@ == self.text(),
    {
        match self {
            Algorithm::EdDSA => "EDDSA",
            Algorithm::Es256 => "ES256",
            Algorithm::Es384 => "ES384",
            Algorithm::Es512 => "ES512",
            Algorithm::Hs256 => "HS256",
            Algorithm::Hs384 => "HS384",
            Algorithm::Hs512 => "HS512",
            Algorithm::Ps256 => "PS256",
            Algorithm::Ps384 => "PS384",
            Algorithm::Ps512 => "PS512",
            Algorithm::Rs256 => "RS256",
            Algorithm::Rs384 => "RS384",
            Algorithm::Rs512 => "RS512",
        }
    }

    /// Finds the algorithm written as `text`, which must already be in upper case.
    pub fn from_text(text: &str) -> (found: Option<Self>)
        ensures
            match found {
                Some(k) => k.text() == text@,
                None => forall|k: Self| k.text() != text@,
            },
    {
        if same_text(text, "EDDSA") {
            Some(Algorithm::EdDSA)
        } else if same_text(text, "ES256") {
            Some(Algorithm::Es256)
        } else if same_text(text, "ES384") {
            Some(Algorithm::Es384)
        } else if same_text(text, "ES512") {
            Some(Algorithm::Es512)
        } else if same_text(text, "HS256") {
            Some(Algorithm::Hs256)
        } else if same_text(text, "HS384") {
            Some(Algorithm::Hs384)
        } else if same_text(text, "HS512") {
            Some(Algorithm::Hs512)
        } else if same_text(text, "PS256") {
            Some(Algorithm::Ps256)
        } else if same_text(text, "PS384") {
            Some(Algorithm::Ps384)
        } else if same_text(text, "PS512") {
            Some(Algorithm::Ps512)
        } else if same_text(text, "RS256") {
            Some(Algorithm::Rs256)
        } else if same_text(text, "RS384") {
            Some(Algorithm::Rs384)
        } else if same_text(text, "RS512") {
            Some(Algorithm::Rs512)
        } else {
            None
        }
    }
}

/// A natural language that a text analyzer may name.
#[derive(Clone, Copy, PartialEq, Eq, Structural, Hash, Debug)]
pub enum Language {
    Arabic,
    Danish,
    Dutch,
    English,
    French,
    German,
    Greek,
    Hungarian,
    Italian,
    Norwegian,
    Portuguese,
    Romanian,
    Russian,
    Spanish,
    Swedish,
    Tamil,
    Turkish,
}

impl Language {
    /// The text this language is written as, in upper case.
    pub open spec fn text(self) -> Seq<char> {
        match self {
            Language::Arabic => "ARABIC"@,
            Language::Danish => "DANISH"@,
            Language::Dutch => "DUTCH"@,
            Language::English => "ENGLISH"@,
            Language::French => "FRENCH"@,
            Language::German => "GERMAN"@,
            Language::Greek => "GREEK"@,
            Language::Hungarian => "HUNGARIAN"@,
            Language::Italian => "ITALIAN"@,
            Language::Norwegian => "NORWEGIAN"@,
            Language::Portuguese => "PORTUGUESE"@,
            Language::Romanian => "ROMANIAN"@,
            Language::Russian => "RUSSIAN"@,
            Language::Spanish => "SPANISH"@,
            Language::Swedish => "SWEDISH"@,
            Language::Tamil => "TAMIL"@,
            Language::Turkish => "TURKISH"@,
        }
    }

    pub fn as_str(&self) -> (s: &'static str)
        ensures
            s@ == self.text(),
    {
        match self {
            Language::Arabic => "ARABIC",
            Language::Danish => "DANISH",
            Language::Dutch => "DUTCH",
            Language::English => "ENGLISH",
            Language::French => "FRENCH",
            Language::German => "GERMAN",
            Language::Greek => "GREEK",
            Language::Hungarian => "HUNGARIAN",
            Language::Italian => "ITALIAN",
            Language::Norwegian => "NORWEGIAN",
            Language::Portuguese => "PORTUGUESE",
            Language::Romanian => "ROMANIAN",
            Language::Russian => "RUSSIAN",
            Language::Spanish => "SPANISH",
            Language::Swedish => "SWEDISH",
            Language::Tamil => "TAMIL",
            Language::Turkish => "TURKISH",
        }
    }

    /// Finds the language written as `text`, which must already be in upper case.
    pub fn from_text(text: &str) -> (found: Option<Self>)
        ensures
            match found {
                Some(k) => k.text() == text@,
                None => forall|k: Self| k.text() != text@,
            },
    {
        if same_text(text, "ARABIC") {
            Some(Language::Arabic)
        } else if same_text(text, "DANISH") {
            Some(Language::Danish)
        } else if same_text(text, "DUTCH") {
            Some(Language::Dutch)
        } else if same_text(text, "ENGLISH") {
            Some(Language::English)
        } else if same_text(text, "FRENCH") {
            Some(Language::French)
        } else if same_text(text, "GERMAN") {
            Some(Language::German)
        } else if same_text(text, "GREEK") {
            Some(Language::Greek)
        } else if same_text(text, "HUNGARIAN") {
            Some(Language::Hungarian)
        } else if same_text(text, "ITALIAN") {
            Some(Language::Italian)
        } else if same_text(text, "NORWEGIAN") {
            Some(Language::Norwegian)
        } else if same_text(text, "PORTUGUESE") {
            Some(Language::Portuguese)
        } else if same_text(text, "ROMANIAN") {
            Some(Language::Romanian)
        } else if same_text(text, "RUSSIAN") {
            Some(Language::Russian)
        } else if same_text(text, "SPANISH") {
            Some(Language::Spanish)
        } else if same_text(text, "SWEDISH") {
            Some(Language::Swedish)
        } else if same_text(text, "TAMIL") {
            Some(Language::Tamil)
        } else if same_text(text, "TURKISH") {
            Some(Language::Turkish)
        } else {
            None
        }
    }
}

/// The type of token
#[derive(Clone, Copy, PartialEq, Eq, Structural, Hash, Debug)]
pub enum TokenKind {
    Keyword(Keyword),
    Algorithm(Algorithm),
    Language(Language),
    Geometry(GeometryName),
    Distance(DistanceKind),
    Operator(Operator),
    OpenDelim(Delim),
    CloseDelim(Delim),
    Regex,
    Uuid,
    DateTime,
    Strand,
    /// A parameter like `$name`.
    Parameter,
    /// A duration.
    Duration,
    Number,
    Identifier,
    /// `<`
    LeftChefron,
    /// `>`
    RightChefron,
    /// `*`
    Star,
    /// `?`
    Question,
    /// `$`
    Dollar,
    /// `->`
    ArrowRight,
    /// `<-`
    ArrowLeft,
    /// `<->`
    BiArrow,
    /// `/`
    ForwardSlash,
    /// `%`
    Percent,
    /// `.`
    Dot,
    /// `..`
    DotDot,
    /// `...` or `…`
    DotDotDot,
    /// `;`
    SemiColon,
    /// `::`
    PathSeperator,
    /// `:`
    Colon,
    /// `,`
    Comma,
    /// `|`
    Vert,
    /// `@`
    At,
    /// A token which could not be properly lexed.
    Invalid,
    /// A token which indicates the end of the file.
    Eof,
}

impl TokenKind {
    /// Whether a token of this kind may stand where an identifier is expected.
    pub open spec fn is_identifier_like(self) -> bool {
        self is Identifier || self is Keyword || self is Language || self is Algorithm
    }

    pub fn can_be_identifier(&self) -> (can: bool)
        ensures
            can == self.is_identifier_like(),
    {
        match self {
            TokenKind::Identifier => true,
            TokenKind::Keyword(_) => true,
            TokenKind::Language(_) => true,
            TokenKind::Algorithm(_) => true,
            _ => false,
        }
    }

    /// How a token of this kind is named in messages.
    pub open spec fn text(self) -> Seq<char> {
        match self {
            TokenKind::Keyword(x) => x.text(),
            TokenKind::Operator(x) => x.text(),
            TokenKind::Algorithm(x) => x.text(),
            TokenKind::Language(x) => x.text(),
            TokenKind::Geometry(x) => x.text(),
            TokenKind::Distance(x) => x.text(),
            TokenKind::OpenDelim(Delim::Paren) => "("@,
            TokenKind::OpenDelim(Delim::Brace) => "{"@,
            TokenKind::OpenDelim(Delim::Bracket) => "["@,
            TokenKind::CloseDelim(Delim::Paren) => ")"@,
            TokenKind::CloseDelim(Delim::Brace) => "}"@,
            TokenKind::CloseDelim(Delim::Bracket) => "]"@,
            TokenKind::Regex => "a regex"@,
            TokenKind::Uuid => "a uuid"@,
            TokenKind::DateTime => "a date-time"@,
            TokenKind::Strand => "a strand"@,
            TokenKind::Parameter => "a parameter"@,
            TokenKind::Duration => "a duration"@,
            TokenKind::Number => "a number"@,
            TokenKind::Identifier => "an identifier"@,
            TokenKind::LeftChefron => "'<'"@,
            TokenKind::RightChefron => "'>'"@,
            TokenKind::Star => "'*'"@,
            TokenKind::Question => "'?'"@,
            TokenKind::Dollar => "'$'"@,
            TokenKind::ArrowRight => "'->'"@,
            TokenKind::ArrowLeft => "'<-'"@,
            TokenKind::BiArrow => "'<->'"@,
            TokenKind::ForwardSlash => "'/'"@,
            TokenKind::Percent => "'%'"@,
            TokenKind::Dot => "'.'"@,
            TokenKind::DotDot => "'..'"@,
            TokenKind::DotDotDot => "'...'"@,
            TokenKind::SemiColon => "';'"@,
            TokenKind::PathSeperator => "'::'"@,
            TokenKind::Colon => "':'"@,
            TokenKind::Comma => "','"@,
            TokenKind::Vert => "'|'"@,
            TokenKind::At => "'@'"@,
            TokenKind::Invalid => "Invalid"@,
            TokenKind::Eof => "Eof"@,
        }
    }

    pub fn as_str(&self) -> (s: &'static str)
        ensures
            s@ == self.text(),
    {
        match *self {
            TokenKind::Keyword(x) => x.as_str(),
            TokenKind::Operator(x) => x.as_str(),
            TokenKind::Algorithm(x) => x.as_str(),
            TokenKind::Language(x) => x.as_str(),
            TokenKind::Geometry(x) => x.as_str(),
            TokenKind::Distance(x) => x.as_str(),
            TokenKind::OpenDelim(Delim::Paren) => "(",
            TokenKind::OpenDelim(Delim::Brace) => "{",
            TokenKind::OpenDelim(Delim::Bracket) => "[",
            TokenKind::CloseDelim(Delim::Paren) => ")",
            TokenKind::CloseDelim(Delim::Brace) => "}",
            TokenKind::CloseDelim(Delim::Bracket) => "]",
            TokenKind::Regex => "a regex",
            TokenKind::Uuid => "a uuid",
            TokenKind::DateTime => "a date-time",
            TokenKind::Strand => "a strand",
            TokenKind::Parameter => "a parameter",
            TokenKind::Duration => "a duration",
            TokenKind::Number => "a number",
            TokenKind::Identifier => "an identifier",
            TokenKind::LeftChefron => "'<'",
            TokenKind::RightChefron => "'>'",
            TokenKind::Star => "'*'",
            TokenKind::Question => "'?'",
            TokenKind::Dollar => "'$'",
            TokenKind::ArrowRight => "'->'",
            TokenKind::ArrowLeft => "'<-'",
            TokenKind::BiArrow => "'<->'",
            TokenKind::ForwardSlash => "'/'",
            TokenKind::Percent => "'%'",
            TokenKind::Dot => "'.'",
            TokenKind::DotDot => "'..'",
            TokenKind::DotDotDot => "'...'",
            TokenKind::SemiColon => "';'",
            TokenKind::PathSeperator => "'::'",
            TokenKind::Colon => "':'",
            TokenKind::Comma => "','",
            TokenKind::Vert => "'|'",
            TokenKind::At => "'@'",
            TokenKind::Invalid => "Invalid",
            TokenKind::Eof => "Eof",
        }
    }
}

/// A index for extra data associated with the token.
///
/// The index is kept one higher than it is, so that no index is stored as zero.
#[derive(Clone, Copy, PartialEq, Eq, Structural, Hash, Debug)]
pub struct DataIndex {
    raised: u32,
}

impl DataIndex {
    /// The position in the side table that this index names.
    pub closed spec fn position(self) -> int {
        self.raised - 1
    }

    /// Every index that `from_index` makes names a position of a `u32`.
    pub closed spec fn wf(self) -> bool {
        self.raised >= 1
    }

    /// The index that names the position `value`.
    pub closed spec fn from_index_spec(value: u32) -> Self {
        DataIndex { raised: (value + 1) as u32 }
    }

    pub fn from_index(value: u32) -> (idx: Self)
        requires
            value < u32::MAX,
        ensures
            idx == Self::from_index_spec(value),
            idx.wf(),
            idx.position() == value,
    {
        DataIndex { raised: value + 1 }
    }

    pub fn index(self) -> (value: u32)
        requires
            self.wf(),
        ensures
            value == self.position(),
    {
        self.raised - 1
    }
}

#[derive(Clone, Copy, PartialEq, Eq, Structural, Hash, Debug)]
pub struct Token {
    pub kind: TokenKind,
    pub span: Span,
    pub data_index: Option<DataIndex>,
}

impl Token {
    pub fn invalid() -> (token: Token)
        ensures
            token == (Token { kind: TokenKind::Invalid, span: Span { offset: 0, len: 0 }, data_index: None }),
    {
        Token { kind: TokenKind::Invalid, span: Span::empty(), data_index: None }
    }

    /// Returns if the token is invalid.
    pub fn is_invalid(&self) -> (invalid: bool)
        ensures
            invalid == (self.kind is Invalid),
    {
        match self.kind {
            TokenKind::Invalid => true,
            _ => false,
        }
    }

    /// Returns if the token is `end of file`.
    pub fn is_eof(&self) -> (eof: bool)
        ensures
            eof == (self.kind is Eof),
    {
        match self.kind {
            TokenKind::Eof => true,
            _ => false,
        }
    }
}

} // verus!
