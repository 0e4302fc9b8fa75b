//! What the index records of a source tree.
use vstd::prelude::*;
use crate::text::str_eq;

verus! {

/// How a call that goes through a value is written.
#[derive(Debug, Clone, Copy, PartialEq, Eq, Structural)]
pub enum DispatchKind {
    /// `ops->read(...)`.
    MemberArrow,
    /// A candidate that an indirect-call macro declares.
    MacroDeclared,
}

impl DispatchKind {
    /// The text that stands for the kind in a stored row.
    pub open spec fn text(self) -> Seq<char> {
        match self {
            DispatchKind::MemberArrow => "member_arrow"@,
            DispatchKind::MacroDeclared => "macro_declared"@,
        }
    }

    pub fn as_str(&self) -> (r: &'static str)
        ensures
            r@ == self.text(),
    {
        match self {
            DispatchKind::MemberArrow => "member_arrow",
            DispatchKind::MacroDeclared => "macro_declared",
        }
    }

    /// The kind a stored text stands for.
    pub fn from_column_value(value: &str) -> (r: Option<Self>)
        ensures
            match r {
                Some(kind) => value@ == kind.text(),
                None => forall|kind: DispatchKind| value@ != #[trigger] kind.text(),
            },
    {
        if str_eq(value, "member_arrow") {
            Some(DispatchKind::MemberArrow)
        } else if str_eq(value, "macro_declared") {
            Some(DispatchKind::MacroDeclared)
        } else {
            None
        }
    }
}

/// A kind is read back from the text that was stored for it.
pub proof fn dispatch_kinds_have_different_texts(a: DispatchKind, b: DispatchKind)
    ensures
        a.text() == b.text() ==> a == b,
{
    reveal_strlit("member_arrow");
    reveal_strlit("macro_declared");
    assert("member_arrow"@.len() != "macro_declared"@.len());
}

/// How a function is installed in a struct member.
#[derive(Debug, Clone, Copy, PartialEq, Eq, Structural)]
pub enum RegistrationKind {
    /// `.read = my_read` in an initializer.
    DesignatedInit,
}

impl RegistrationKind {
    /// The text that stands for the kind in a stored row.
    pub open spec fn text(self) -> Seq<char> {
        match self {
            RegistrationKind::DesignatedInit => "designated_init"@,
        }
    }

    pub fn as_str(&self) -> (r: &'static str)
        ensures
            r@ == self.text(),
    {
        match self {
            RegistrationKind::DesignatedInit => "designated_init",
        }
    }

    /// The kind a stored text stands for.
    pub fn from_column_value(value: &str) -> (r: Option<Self>)
        ensures
            match r {
                Some(kind) => value@ == kind.text(),
                None => forall|kind: RegistrationKind| value@ != #[trigger] kind.text(),
            },
    {
        if str_eq(value, "designated_init") {
            Some(RegistrationKind::DesignatedInit)
        } else {
            None
        }
    }
}

/// A call that goes through a value rather than naming a function.
#[derive(Debug, Clone)]
pub struct DispatchSite {
    /// Function containing the call, empty when the site is not in one.
    pub caller_name: String,
    pub file_path: String,
    pub git_file_hash: String,
    pub byte_start: u64,
    pub line: u32,
    /// The member the call goes through.
    pub member: String,
    pub receiver_expr: Option<String>,
    pub receiver_type: Option<String>,
    /// Where the receiver is itself a field: the type that holds the field.
    pub receiver_base_type: Option<String>,
    pub receiver_field: Option<String>,
    pub kind: DispatchKind,
    /// The function the site names outright.
    pub target: Option<String>,
}

/// A function installed in a struct member.
#[derive(Debug, Clone)]
pub struct Registration {
    pub container_type: String,
    pub member: String,
    pub target: String,
    pub file_path: String,
    pub git_file_hash: String,
    pub byte_start: u64,
    pub line: u32,
    /// Empty at file scope.
    pub enclosing_function: String,
    pub kind: RegistrationKind,
    /// Where the container is itself a field: the type that holds the field.
    pub container_base_type: Option<String>,
    pub container_field: Option<String>,
}

#[derive(Debug, Clone)]
pub struct ParameterInfo {
    pub declared_type: String,
    pub name: String,
}

/// A function or a macro of the source tree. A macro has no return type.
#[derive(Debug, Clone)]
pub struct FunctionInfo {
    pub name: String,
    pub file_path: String,
    pub git_file_hash: String,
    pub line_start: u32,
    pub line_end: u32,
    pub return_type: String,
    pub parameters: Vec<ParameterInfo>,
    pub body: String,
    /// Functions it calls, where that is known.
    pub calls: Option<Vec<String>>,
    /// Types it uses, where that is known.
    pub types: Option<Vec<String>>,
}

#[derive(Debug, Clone)]
pub struct FieldInfo {
    pub name: String,
    pub declared_type: String,
    pub offset: Option<u64>,
}

#[derive(Debug, Clone)]
pub struct TypeInfo {
    pub name: String,
    pub file_path: String,
    pub git_file_hash: String,
    pub line_start: u32,
    /// `struct`, `union`, `enum`, `typedef`.
    pub kind: String,
    pub size: Option<u64>,
    pub members: Vec<FieldInfo>,
    pub definition: String,
    /// Types it refers to, where that is known.
    pub types: Option<Vec<String>>,
}

#[derive(Debug, Clone)]
pub struct TypedefInfo {
    pub name: String,
    pub file_path: String,
    pub git_file_hash: String,
    pub line_start: u32,
    pub underlying_type: String,
    pub definition: String,
}

/// Rows that are found by name.
pub trait Named: Sized {
    spec fn named(&self) -> Seq<char>;

    fn name(&self) -> (r: &str)
        ensures
            r@ == self.named(),
    ;
}

impl Named for FunctionInfo {
    open spec fn named(&self) -> Seq<char> {
        self.name@
    }

    fn name(&self) -> (r: &str) {
        self.name.as_str()
    }
}

impl Named for TypeInfo {
    open spec fn named(&self) -> Seq<char> {
        self.name@
    }

    fn name(&self) -> (r: &str) {
        self.name.as_str()
    }
}

impl Named for TypedefInfo {
    open spec fn named(&self) -> Seq<char> {
        self.name@
    }

    fn name(&self) -> (r: &str) {
        self.name.as_str()
    }
}

/// A function named as an argument of a call: what a callee was handed.
#[derive(Debug, Clone)]
pub struct ArgumentFunction {
    pub target: String,
    pub callee: String,
    pub argument_index: u32,
    pub taken_address: bool,
    pub file_path: String,
    pub git_file_hash: String,
    pub byte_start: u64,
    pub line: u32,
    pub enclosing_function: String,
    /// The object whose member is handed over in the same call.
    pub subject_type: Option<String>,
    pub subject_member: Option<String>,
}

/// What becomes of a function that is handed to a call.
#[derive(Debug, Clone)]
pub enum Handover {
    /// It is stored in a member, and called later.
    StoredIn { path: Vec<String>, container_type: String, member: String },
    /// It is called before the call returns.
    Invoked { path: Vec<String> },
}

/// Where to look for one side of an edge.
#[derive(Debug, Clone)]
pub struct EdgeLocation {
    pub role: String,
    pub file_path: String,
    pub line: u32,
}

/// An edge the index cannot record: what is known of it, and where to look.
#[derive(Debug, Clone)]
pub struct UnresolvedEdge {
    pub name: String,
    pub direction: String,
    pub kind: String,
    pub evidence: String,
    pub locations: Vec<EdgeLocation>,
    pub file_path: String,
    pub git_file_hash: String,
    pub line: u32,
}

/// One definition of a name, with what it calls.
#[derive(Debug, Clone)]
pub struct CalleeDefinition {
    pub file_path: String,
    pub line_start: u32,
    pub callees: Vec<String>,
    /// False for a declaration without a body.
    pub is_definition: bool,
}

/// A call through one of a function's own parameters, with what its callers
/// hand to that position.
#[derive(Debug, Clone)]
pub struct ParameterDispatch {
    pub file_path: String,
    pub line: u32,
    pub parameter: String,
    pub position: u32,
    pub candidates: Vec<(String, String, u32)>,
}

/// A file-scope variable of aggregate type.
#[derive(Debug, Clone)]
pub struct GlobalVariable {
    pub name: String,
    pub declared_type: String,
    pub file_path: String,
    pub git_file_hash: String,
    pub line: u32,
}

/// A macro and what it stands for.
#[derive(Debug, Clone)]
pub struct ObjectMacro {
    pub name: String,
    pub expansion: String,
    pub file_path: String,
    pub git_file_hash: String,
}

} // verus!
