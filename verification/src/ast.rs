//! The syntax tree that the parser builds: statements and the productions they are made of.

use vstd::prelude::*;
use crate::lexer::NumberLiteral;
use crate::lexer::NumberLiteralView;
use crate::time::Datetime;
use crate::time::Duration;
use crate::value::Uuid;

verus! {

/// An operator of an expression or of an assignment.
#[derive(Clone, Copy, PartialEq, Eq, Structural, Hash, Debug)]
pub enum Operator {
    /// `-` before a value
    Neg,
    /// `!`
    Not,
    /// `||` or `OR`
    Or,
    /// `&&` or `AND`
    And,
    /// `??`
    Tco,
    /// `?:`
    Nco,
    /// `+`
    Add,
    /// `-`
    Sub,
    /// `*` or `×`
    Mul,
    /// `/` or `÷`
    Div,
    /// `%`
    Rem,
    /// `**`
    Pow,
    /// `+=`
    Inc,
    /// `-=`
    Dec,
    /// `+?=`
    Ext,
    /// `=`
    Equal,
    /// `==`
    Exact,
    /// `!=`
    NotEqual,
    /// `*=`
    AllEqual,
    /// `?=`
    AnyEqual,
    /// `~`
    Like,
    /// `!~`
    NotLike,
    /// `*~`
    AllLike,
    /// `?~`
    AnyLike,
    /// `<`
    LessThan,
    /// `<=`
    LessThanOrEqual,
    /// `>`
    MoreThan,
    /// `>=`
    MoreThanOrEqual,
    /// `∋`
    Contain,
    /// `∌`
    NotContain,
    /// `⊇`
    ContainAll,
    /// `⊃`
    ContainAny,
    /// `⊅`
    ContainNone,
    /// `∈` or `IN`
    Inside,
    /// `∉`
    NotInside,
    /// `⊆`
    AllInside,
    /// `⊂`
    AnyInside,
    /// `⊄`
    NoneInside,
}

/// A name.
#[derive(Debug)]
pub struct Ident(pub String);

impl View for Ident {
    type V = Seq<char>;

    open spec fn view(&self) -> Seq<char> {
        self.0@
    }
}

impl Ident {
    pub fn as_str(&self) -> (text: &str)
        ensures
            text@ == self@,
    {
        self.0.as_str()
    }
}

/// The way along an edge of the graph.
#[derive(Clone, Copy, PartialEq, Eq, Structural, Hash, Debug)]
pub enum Dir {
    /// `<-`
    In,
    /// `->`
    Out,
    /// `<->`
    Both,
}

/// What a `Part` stands for.
pub enum PartView {
    Field(Seq<char>),
    Index(u64),
    All,
    Last,
    Graph(Dir, Seq<char>),
    Destructure(Seq<Seq<char>>),
}

/// A step of a path through a record.
#[derive(Debug)]
pub enum Part {
    /// `.name`
    Field(Ident),
    /// `[7]`
    Index(u64),
    /// `[*]`
    All,
    /// `[$]`
    Last,
    /// `->table`, `<-table` or `<->table`
    Graph(Dir, Ident),
    /// `.{a, b}`
    Destructure(Vec<Ident>),
}

impl View for Part {
    type V = PartView;

    open spec fn view(&self) -> PartView {
        match self {
            Part::Field(name) => PartView::Field(name@),
            Part::Index(index) => PartView::Index(*index),
            Part::All => PartView::All,
            Part::Last => PartView::Last,
            Part::Graph(dir, table) => PartView::Graph(*dir, table@),
            Part::Destructure(names) => PartView::Destructure(
                names@.map_values(|name: Ident| name@),
            ),
        }
    }
}

/// A path through a record: fields, places in arrays, and edges of the graph.
#[derive(Debug)]
pub struct Idiom(pub Vec<Part>);

impl View for Idiom {
    type V = Seq<PartView>;

    open spec fn view(&self) -> Seq<PartView> {
        self.0@.map_values(|part: Part| part@)
    }
}

/// What the key of a record stands for, as it is written.
pub enum IdView {
    Number(i64),
    String(Seq<char>),
}

/// The key of a record, as it is written behind the table and a colon.
#[derive(Debug)]
pub enum Id {
    Number(i64),
    String(String),
}

impl View for Id {
    type V = IdView;

    open spec fn view(&self) -> IdView {
        match self {
            Id::Number(n) => IdView::Number(*n),
            Id::String(s) => IdView::String(s@),
        }
    }
}

/// What an `Expr` stands for.
pub enum ExprView {
    Nothing,
    Null,
    Bool(bool),
    Number(NumberLiteralView),
    Strand(Seq<char>),
    Duration(u64, u32),
    Datetime(i64, u32),
    Uuid(Seq<u8>),
    Param(Seq<char>),
    Idiom(Seq<PartView>),
    Thing(Seq<char>, IdView),
    Array(Seq<ExprView>),
    Object(Seq<(Seq<char>, ExprView)>),
    Unary(Operator, Box<ExprView>),
    Binary(Box<ExprView>, Operator, Box<ExprView>),
}

/// A value as it is written in a statement: a literal, a parameter, a path, or an
/// expression over values.
#[derive(Debug)]
pub enum Expr {
    /// `NONE`
    Nothing,
    /// `NULL`
    Null,
    Bool(bool),
    Number(NumberLiteral),
    Strand(String),
    Duration(Duration),
    Datetime(Datetime),
    Uuid(Uuid),
    /// `$name`
    Param(String),
    Idiom(Idiom),
    /// `table:key`
    Thing(Ident, Id),
    Array(Vec<Expr>),
    Object(Vec<(String, Expr)>),
    Unary(Operator, Box<Expr>),
    Binary(Box<Expr>, Operator, Box<Expr>),
}

/// What a vector of expressions stands for.
pub open spec fn exprs_view(items: Seq<Expr>) -> Seq<ExprView>
    decreases items,
{
    if items.len() == 0 {
        Seq::empty()
    } else {
        exprs_view(items.drop_last()).push(items.last()@)
    }
}

/// What the entries of an object stand for.
pub open spec fn fields_view(entries: Seq<(String, Expr)>) -> Seq<(Seq<char>, ExprView)>
    decreases entries,
{
    if entries.len() == 0 {
        Seq::empty()
    } else {
        fields_view(entries.drop_last()).push((entries.last().0@, entries.last().1@))
    }
}

impl View for Expr {
    type V = ExprView;

    open spec fn view(&self) -> ExprView
        decreases self,
    {
        match self {
            Expr::Nothing => ExprView::Nothing,
            Expr::Null => ExprView::Null,
            Expr::Bool(b) => ExprView::Bool(*b),
            Expr::Number(n) => ExprView::Number(n@),
            Expr::Strand(s) => ExprView::Strand(s@),
            Expr::Duration(d) => ExprView::Duration(d@.0, d@.1),
            Expr::Datetime(d) => ExprView::Datetime(d@.0, d@.1),
            Expr::Uuid(u) => ExprView::Uuid(u@),
            Expr::Param(name) => ExprView::Param(name@),
            Expr::Idiom(idiom) => ExprView::Idiom(idiom@),
            Expr::Thing(table, id) => ExprView::Thing(table@, id@),
            Expr::Array(items) => ExprView::Array(exprs_view(items@)),
            Expr::Object(entries) => ExprView::Object(fields_view(entries@)),
            Expr::Unary(op, operand) => ExprView::Unary(*op, Box::new((**operand)@)),
            Expr::Binary(left, op, right) => ExprView::Binary(
                Box::new((**left)@),
                *op,
                Box::new((**right)@),
            ),
        }
    }
}

/// What a `Field` stands for.
pub enum FieldView {
    All,
    Single { expr: ExprView, alias: Option<Seq<PartView>> },
}

/// One of the fields that a statement returns.
#[derive(Debug)]
pub enum Field {
    /// `*`
    All,
    /// A value, and the name under which it is returned, where one is given with `AS`.
    Single { expr: Expr, alias: Option<Idiom> },
}

impl View for Field {
    type V = FieldView;

    open spec fn view(&self) -> FieldView {
        match self {
            Field::All => FieldView::All,
            Field::Single { expr, alias } => FieldView::Single {
                expr: expr@,
                alias: match alias {
                    Some(idiom) => Some(idiom@),
                    None => None,
                },
            },
        }
    }
}

/// The fields that a statement returns.
#[derive(Debug)]
pub struct Fields(pub Vec<Field>);

impl View for Fields {
    type V = Seq<FieldView>;

    open spec fn view(&self) -> Seq<FieldView> {
        self.0@.map_values(|field: Field| field@)
    }
}

/// What a `Data` stands for.
pub enum DataView {
    SetExpression(Seq<(Seq<PartView>, Operator, ExprView)>),
    UnsetExpression(Seq<Seq<PartView>>),
    PatchExpression(ExprView),
    MergeExpression(ExprView),
    ReplaceExpression(ExprView),
    ContentExpression(ExprView),
}

/// How a statement changes the records it works on.
#[derive(Debug)]
pub enum Data {
    /// `SET a = 1, b += 2`
    SetExpression(Vec<(Idiom, Operator, Expr)>),
    /// `UNSET a, b`
    UnsetExpression(Vec<Idiom>),
    /// `PATCH [...]`
    PatchExpression(Expr),
    /// `MERGE {...}`
    MergeExpression(Expr),
    /// `REPLACE {...}`
    ReplaceExpression(Expr),
    /// `CONTENT {...}`
    ContentExpression(Expr),
}

impl View for Data {
    type V = DataView;

    open spec fn view(&self) -> DataView {
        match self {
            Data::SetExpression(list) => DataView::SetExpression(
                list@.map_values(|set: (Idiom, Operator, Expr)| (set.0@, set.1, set.2@)),
            ),
            Data::UnsetExpression(list) => DataView::UnsetExpression(
                list@.map_values(|idiom: Idiom| idiom@),
            ),
            Data::PatchExpression(expr) => DataView::PatchExpression(expr@),
            Data::MergeExpression(expr) => DataView::MergeExpression(expr@),
            Data::ReplaceExpression(expr) => DataView::ReplaceExpression(expr@),
            Data::ContentExpression(expr) => DataView::ContentExpression(expr@),
        }
    }
}

/// What an `Output` stands for.
pub enum OutputView {
    Nothing,
    Null,
    Diff,
    After,
    Before,
    Fields(Seq<FieldView>),
}

/// What a statement returns of each record.
#[derive(Debug)]
pub enum Output {
    /// `RETURN NONE`
    Nothing,
    /// `RETURN NULL`
    Null,
    /// `RETURN DIFF`
    Diff,
    /// `RETURN AFTER`
    After,
    /// `RETURN BEFORE`
    Before,
    /// `RETURN a, b`
    Fields(Fields),
}

impl View for Output {
    type V = OutputView;

    open spec fn view(&self) -> OutputView {
        match self {
            Output::Nothing => OutputView::Nothing,
            Output::Null => OutputView::Null,
            Output::Diff => OutputView::Diff,
            Output::After => OutputView::After,
            Output::Before => OutputView::Before,
            Output::Fields(fields) => OutputView::Fields(fields@),
        }
    }
}

/// `TIMEOUT 5s`
#[derive(Clone, Copy, Debug)]
pub struct Timeout(pub Duration);

impl View for Timeout {
    type V = (u64, u32);

    open spec fn view(&self) -> (u64, u32) {
        self.0@
    }
}

/// A path whose records are fetched in place of their ids.
#[derive(Debug)]
pub struct Fetch(pub Idiom);

/// `FETCH a, b`
#[derive(Debug)]
pub struct Fetchs(pub Vec<Fetch>);

impl View for Fetchs {
    type V = Seq<Seq<PartView>>;

    open spec fn view(&self) -> Seq<Seq<PartView>> {
        self.0@.map_values(|fetch: Fetch| fetch.0@)
    }
}

/// `WHERE a > 1`
#[derive(Debug)]
pub struct Cond(pub Expr);

impl View for Cond {
    type V = ExprView;

    open spec fn view(&self) -> ExprView {
        self.0@
    }
}

/// A path by which records are grouped.
#[derive(Debug)]
pub struct Group(pub Idiom);

/// `GROUP BY a, b`, or `GROUP ALL` for no paths.
#[derive(Debug)]
pub struct Groups(pub Vec<Group>);

impl View for Groups {
    type V = Seq<Seq<PartView>>;

    open spec fn view(&self) -> Seq<Seq<PartView>> {
        self.0@.map_values(|group: Group| group.0@)
    }
}

/// What a `Permission` stands for.
pub enum PermissionView {
    Nothing,
    Full,
    Specific(ExprView),
}

/// Who may run a kind of statement on a table.
#[derive(Debug)]
pub enum Permission {
    /// `NONE`: nobody
    Nothing,
    /// `FULL`: everybody
    Full,
    /// `WHERE ...`: whoever the condition holds of
    Specific(Expr),
}

impl View for Permission {
    type V = PermissionView;

    open spec fn view(&self) -> PermissionView {
        match self {
            Permission::Nothing => PermissionView::Nothing,
            Permission::Full => PermissionView::Full,
            Permission::Specific(expr) => PermissionView::Specific(expr@),
        }
    }
}

/// What `Permissions` stand for.
pub struct PermissionsView {
    pub select: PermissionView,
    pub create: PermissionView,
    pub update: PermissionView,
    pub delete: PermissionView,
}

/// Who may select, create, update and delete the records of a table.
#[derive(Debug)]
pub struct Permissions {
    pub select: Permission,
    pub create: Permission,
    pub update: Permission,
    pub delete: Permission,
}

impl View for Permissions {
    type V = PermissionsView;

    open spec fn view(&self) -> PermissionsView {
        PermissionsView {
            select: self.select@,
            create: self.create@,
            update: self.update@,
            delete: self.delete@,
        }
    }
}

impl PermissionsView {
    /// Nobody may do anything.
    pub open spec fn none() -> PermissionsView {
        PermissionsView {
            select: PermissionView::Nothing,
            create: PermissionView::Nothing,
            update: PermissionView::Nothing,
            delete: PermissionView::Nothing,
        }
    }

    /// Everybody may do everything.
    pub open spec fn full() -> PermissionsView {
        PermissionsView {
            select: PermissionView::Full,
            create: PermissionView::Full,
            update: PermissionView::Full,
            delete: PermissionView::Full,
        }
    }
}

impl Permissions {
    /// Nobody may do anything.
    pub fn none() -> (permissions: Permissions)
        ensures
            permissions@ == PermissionsView::none(),
    {
        Permissions {
            select: Permission::Nothing,
            create: Permission::Nothing,
            update: Permission::Nothing,
            delete: Permission::Nothing,
        }
    }

    /// Everybody may do everything.
    pub fn full() -> (permissions: Permissions)
        ensures
            permissions@ == PermissionsView::full(),
    {
        Permissions {
            select: Permission::Full,
            create: Permission::Full,
            update: Permission::Full,
            delete: Permission::Full,
        }
    }
}

impl Default for Permissions {
    /// Where nothing is said, everybody may do everything.
    fn default() -> (permissions: Permissions)
        ensures
            permissions@ == PermissionsView::full(),
    {
        Permissions::full()
    }
}

/// What a `Base` stands for.
pub enum BaseView {
    Root,
    Ns,
    Db,
    Sc(Seq<char>),
}

/// The level at which something is defined or allowed.
#[derive(Debug)]
pub enum Base {
    Root,
    Ns,
    Db,
    Sc(Ident),
}

impl View for Base {
    type V = BaseView;

    open spec fn view(&self) -> BaseView {
        match self {
            Base::Root => BaseView::Root,
            Base::Ns => BaseView::Ns,
            Base::Db => BaseView::Db,
            Base::Sc(name) => BaseView::Sc(name@),
        }
    }
}

/// `CHANGEFEED 1h`: how long the changes of a table are kept.
#[derive(Clone, Copy, Debug)]
pub struct ChangeFeed {
    pub expiry: Duration,
}

impl View for ChangeFeed {
    type V = (u64, u32);

    open spec fn view(&self) -> (u64, u32) {
        self.expiry@
    }
}

/// The name of a table.
#[derive(Debug)]
pub struct Table(pub String);

/// The names of tables.
#[derive(Debug)]
pub struct Tables(pub Vec<Table>);

impl View for Tables {
    type V = Seq<Seq<char>>;

    open spec fn view(&self) -> Seq<Seq<char>> {
        self.0@.map_values(|table: Table| table.0@)
    }
}

/// What a `View` stands for.
pub struct ViewView {
    pub expr: Seq<FieldView>,
    pub what: Seq<Seq<char>>,
    pub cond: Option<ExprView>,
    pub group: Option<Seq<Seq<PartView>>>,
}

/// A table that is computed from other tables: `AS SELECT ... FROM ...`.
#[derive(Debug)]
pub struct TableView {
    pub expr: Fields,
    pub what: Tables,
    pub cond: Option<Cond>,
    pub group: Option<Groups>,
}

impl View for TableView {
    type V = ViewView;

    open spec fn view(&self) -> ViewView {
        ViewView {
            expr: self.expr@,
            what: self.what@,
            cond: match self.cond {
                Some(cond) => Some(cond@),
                None => None,
            },
            group: match self.group {
                Some(group) => Some(group@),
                None => None,
            },
        }
    }
}

/// What a `Distance` stands for.
pub enum DistanceView {
    Euclidean,
    Manhattan,
    Cosine,
    Hamming,
    Mahalanobis,
    Minkowski(NumberLiteralView),
}

/// How the distance between two vectors is measured.
#[derive(Debug)]
pub enum Distance {
    Euclidean,
    Manhattan,
    Cosine,
    Hamming,
    Mahalanobis,
    Minkowski(NumberLiteral),
}

impl View for Distance {
    type V = DistanceView;

    open spec fn view(&self) -> DistanceView {
        match self {
            Distance::Euclidean => DistanceView::Euclidean,
            Distance::Manhattan => DistanceView::Manhattan,
            Distance::Cosine => DistanceView::Cosine,
            Distance::Hamming => DistanceView::Hamming,
            Distance::Mahalanobis => DistanceView::Mahalanobis,
            Distance::Minkowski(order) => DistanceView::Minkowski(order@),
        }
    }
}

/// The values that a statement works on.
#[derive(Debug)]
pub struct Values(pub Vec<Expr>);

impl View for Values {
    type V = Seq<ExprView>;

    open spec fn view(&self) -> Seq<ExprView> {
        exprs_view(self.0@)
    }
}

/// What an `UpdateStatement` stands for.
pub struct UpdateStatementView {
    pub only: bool,
    pub what: Seq<ExprView>,
    pub data: Option<DataView>,
    pub cond: Option<ExprView>,
    pub output: Option<OutputView>,
    pub timeout: Option<(u64, u32)>,
    pub parallel: bool,
}

/// `UPDATE [ONLY] what [data] [WHERE cond] [RETURN output] [TIMEOUT d] [PARALLEL]`
#[derive(Debug)]
pub struct UpdateStatement {
    pub only: bool,
    pub what: Values,
    pub data: Option<Data>,
    pub cond: Option<Cond>,
    pub output: Option<Output>,
    pub timeout: Option<Timeout>,
    pub parallel: bool,
}

impl View for UpdateStatement {
    type V = UpdateStatementView;

    open spec fn view(&self) -> UpdateStatementView {
        UpdateStatementView {
            only: self.only,
            what: self.what@,
            data: match self.data {
                Some(data) => Some(data@),
                None => None,
            },
            cond: match self.cond {
                Some(cond) => Some(cond@),
                None => None,
            },
            output: match self.output {
                Some(output) => Some(output@),
                None => None,
            },
            timeout: match self.timeout {
                Some(timeout) => Some(timeout@),
                None => None,
            },
            parallel: self.parallel,
        }
    }
}

} // verus!
