//! How functions, types, call sites and registrations are stored, and what is
//! read back.
use vstd::prelude::*;
use crate::json::{call_list_complaint, json_names, json_of_names, parse_call_list};
use crate::json::{parse_type_list, write_name_list};
use crate::keyed::{kept, last_of_key, one_row_per_key};
use crate::names::NameMap;
use crate::revision::{copy_maybe, maybe_text};
use crate::sql::{both, both_filter, equals, equals_filter};
use crate::stored::{FunctionMetadata, ProcessedFileRecord, TypeMetadata};
use crate::text::{str_eq, texts};
use crate::types::{ArgumentFunction, DispatchKind, DispatchSite, FieldInfo, FunctionInfo};
use crate::types::{Named, ObjectMacro, ParameterInfo, Registration};
use crate::types::{RegistrationKind, TypeInfo};

verus! {

proof fn lemma_signed_and_back(n: u64)
    ensures
        (n as i64) as u64 == n,
{
    assert((n as i64) as u64 == n) by (bit_vector);
}

/// The names of a list that may not be known.
pub open spec fn maybe_texts(list: Option<Vec<String>>) -> Option<Seq<Seq<char>>> {
    match list {
        Some(list) => Some(texts(list@)),
        None => None,
    }
}

/// A function as it is stored: lists in JSON, and the body under its hash.
#[derive(Debug, Clone)]
pub struct FunctionRow {
    pub name: String,
    pub file_path: String,
    pub git_file_hash: String,
    pub line_start: i64,
    pub line_end: i64,
    pub return_type: String,
    /// The parameters in JSON.
    pub parameters: String,
    pub body_hash: Option<String>,
    pub calls: Option<String>,
    pub types: Option<String>,
}

/// Whether a column stores a list: nothing for a list that is not known.
pub open spec fn stores_names(column: Option<String>, names: Option<Vec<String>>) -> bool {
    match names {
        Some(names) => column matches Some(json) && json@ == json_of_names(texts(names@)) && (
        json_names(json@) matches Ok(list) && list == texts(names@)),
        None => column is None,
    }
}

fn column_of_names(names: &Option<Vec<String>>) -> (r: Result<Option<String>, String>)
    ensures
        match r {
            Ok(column) => stores_names(column, *names),
            Err(_) => false,
        },
{
    match names {
        Some(names) => match write_name_list(names) {
            Ok(json) => Ok(Some(json)),
            Err(message) => Err(message),
        },
        None => Ok(None),
    }
}

/// Whether a row has what a function says of itself, but for its lists and its
/// body.
pub open spec fn describes_function(row: FunctionRow, f: FunctionInfo, parameters: Seq<char>) -> bool {
    &&& row.name == f.name
    &&& row.file_path == f.file_path
    &&& row.git_file_hash == f.git_file_hash
    &&& row.line_start == f.line_start
    &&& row.line_end == f.line_end
    &&& row.return_type == f.return_type
    &&& row.parameters@ == parameters
}

/// Whether a row is how a function is stored.
pub open spec fn stores_function(
    row: FunctionRow,
    f: FunctionInfo,
    parameters: Seq<char>,
    body_hash: Seq<char>,
) -> bool {
    &&& describes_function(row, f, parameters)
    &&& maybe_text(row.body_hash) == (if f.body@.len() == 0 {
        None
    } else {
        Some(body_hash)
    })
    &&& stores_names(row.calls, f.calls)
    &&& stores_names(row.types, f.types)
}

/// The row that stores a function whose body has a hash, with its parameters in
/// JSON. A function without a body has no hash.
pub fn write_function(f: &FunctionInfo, parameters: &str, body_hash: &str) -> (r: Result<
    FunctionRow,
    String,
>)
    ensures
        match r {
            Ok(row) => stores_function(row, *f, parameters@, body_hash@),
            Err(_) => false,
        },
{
    let calls = match column_of_names(&f.calls) {
        Ok(calls) => calls,
        Err(message) => {
            return Err(message);
        },
    };
    let types = match column_of_names(&f.types) {
        Ok(types) => types,
        Err(message) => {
            return Err(message);
        },
    };
    Ok(
        FunctionRow {
            name: f.name.clone(),
            file_path: f.file_path.clone(),
            git_file_hash: f.git_file_hash.clone(),
            line_start: f.line_start as i64,
            line_end: f.line_end as i64,
            return_type: f.return_type.clone(),
            parameters: String::from_str(parameters),
            body_hash: if f.body.as_str().is_empty() {
                None
            } else {
                Some(String::from_str(body_hash))
            },
            calls,
            types,
        },
    )
}

/// Whether a column stores a list where none of the columns may be null: nothing
/// but an empty text for a list that is not known.
pub open spec fn fills_names(column: Option<String>, names: Option<Vec<String>>) -> bool {
    match names {
        Some(_) => stores_names(column, names),
        None => column matches Some(json) && json@ == Seq::<char>::empty(),
    }
}

fn filled_column(names: &Option<Vec<String>>) -> (r: Option<String>)
    ensures
        fills_names(r, *names),
{
    match names {
        Some(names) => match write_name_list(names) {
            Ok(json) => Some(json),
            Err(_) => Some(String::new()),
        },
        None => {
            let empty = String::new();
            assert(empty@ =~= Seq::<char>::empty());
            Some(empty)
        },
    }
}

/// Whether a row is how a function is stored when its body is stored apart.
pub open spec fn stores_function_metadata(
    row: FunctionRow,
    f: FunctionInfo,
    parameters: Seq<char>,
    body_hash: Seq<char>,
) -> bool {
    &&& describes_function(row, f, parameters)
    &&& maybe_text(row.body_hash) == Some(
        if f.body@.len() == 0 {
            Seq::empty()
        } else {
            body_hash
        },
    )
    &&& fills_names(row.calls, f.calls)
    &&& fills_names(row.types, f.types)
}

/// The row that stores a function when its body is stored apart: no column is
/// null.
pub fn write_function_metadata(f: &FunctionInfo, parameters: &str, body_hash: &str) -> (r:
    FunctionRow)
    ensures
        stores_function_metadata(r, *f, parameters@, body_hash@),
{
    let hash = if f.body.as_str().is_empty() {
        String::new()
    } else {
        String::from_str(body_hash)
    };
    assert(f.body@.len() == 0 ==> hash@ =~= Seq::empty());
    FunctionRow {
        name: f.name.clone(),
        file_path: f.file_path.clone(),
        git_file_hash: f.git_file_hash.clone(),
        line_start: f.line_start as i64,
        line_end: f.line_end as i64,
        return_type: f.return_type.clone(),
        parameters: String::from_str(parameters),
        body_hash: Some(hash),
        calls: filled_column(&f.calls),
        types: filled_column(&f.types),
    }
}

/// What is wrong with the calls of a stored function, if anything is.
pub open spec fn function_complaint(row: FunctionRow) -> Option<Seq<char>> {
    match row.calls {
        Some(json) => match json_names(json@) {
            Ok(_) => None,
            Err(complaint) => Some(call_list_complaint(complaint, json@)),
        },
        None => None,
    }
}

/// The list that a column of calls holds.
pub open spec fn read_calls(column: Option<String>) -> Option<Seq<Seq<char>>> {
    match column {
        Some(json) => match json_names(json@) {
            Ok(names) => Some(names),
            Err(_) => None,
        },
        None => None,
    }
}

/// Whether a row reads as a function.
pub open spec fn reads_function(
    row: FunctionRow,
    parameters: Vec<ParameterInfo>,
    f: FunctionMetadata,
) -> bool {
    &&& f.name == row.name
    &&& f.file_path == row.file_path
    &&& f.git_file_hash == row.git_file_hash
    &&& f.line_start == row.line_start as u32
    &&& f.line_end == row.line_end as u32
    &&& f.return_type == row.return_type
    &&& f.parameters == parameters
    &&& f.body_hash == row.body_hash
    &&& maybe_texts(f.calls) == read_calls(row.calls)
    &&& maybe_texts(f.types) == read_calls(row.types)
}

/// Reads a stored function whose parameters were read. A list of calls that cannot
/// be read is an error; a list of types that cannot be read is not known.
pub fn read_function(row: FunctionRow, parameters: Vec<ParameterInfo>) -> (r: Result<
    FunctionMetadata,
    String,
>)
    ensures
        match r {
            Ok(f) => function_complaint(row) is None && reads_function(row, parameters, f),
            Err(message) => function_complaint(row) == Some(message@),
        },
{
    let calls = match &row.calls {
        Some(json) => match parse_call_list(json.as_str()) {
            Ok(names) => Some(names),
            Err(message) => {
                return Err(message);
            },
        },
        None => None,
    };
    let types = match &row.types {
        Some(json) => parse_type_list(json.as_str()),
        None => None,
    };
    Ok(
        FunctionMetadata {
            name: row.name,
            file_path: row.file_path,
            git_file_hash: row.git_file_hash,
            line_start: #[verifier::truncate]
            (row.line_start as u32),
            line_end: #[verifier::truncate]
            (row.line_end as u32),
            return_type: row.return_type,
            parameters,
            body_hash: row.body_hash,
            calls,
            types,
        },
    )
}

/// A function reads back as it was stored, with the parameters that were read.
pub proof fn functions_read_back(
    f: FunctionInfo,
    json: Seq<char>,
    body_hash: Seq<char>,
    row: FunctionRow,
    parameters: Vec<ParameterInfo>,
    read: FunctionMetadata,
)
    requires
        stores_function(row, f, json, body_hash),
        reads_function(row, parameters, read),
    ensures
        function_complaint(row) is None,
        read.name == f.name,
        read.file_path == f.file_path,
        read.git_file_hash == f.git_file_hash,
        read.line_start == f.line_start,
        read.line_end == f.line_end,
        read.return_type == f.return_type,
        maybe_text(read.body_hash) == (if f.body@.len() == 0 {
            None
        } else {
            Some(body_hash)
        }),
        maybe_texts(read.calls) == maybe_texts(f.calls),
        maybe_texts(read.types) == maybe_texts(f.types),
{
}

/// A function whose body is stored apart reads back as it was stored, where it is
/// known what it calls and which types it uses.
pub proof fn function_metadata_reads_back(
    f: FunctionInfo,
    json: Seq<char>,
    body_hash: Seq<char>,
    row: FunctionRow,
    parameters: Vec<ParameterInfo>,
    read: FunctionMetadata,
)
    requires
        stores_function_metadata(row, f, json, body_hash),
        reads_function(row, parameters, read),
        f.calls is Some,
        f.types is Some,
    ensures
        function_complaint(row) is None,
        read.name == f.name,
        read.file_path == f.file_path,
        read.git_file_hash == f.git_file_hash,
        read.line_start == f.line_start,
        read.line_end == f.line_end,
        read.return_type == f.return_type,
        maybe_texts(read.calls) == maybe_texts(f.calls),
        maybe_texts(read.types) == maybe_texts(f.types),
{
}

/// A type as it is stored: lists in JSON, and the definition under its hash.
#[derive(Debug, Clone)]
pub struct TypeRow {
    pub name: String,
    pub file_path: String,
    pub git_file_hash: String,
    pub line: i64,
    pub kind: String,
    pub size: Option<i64>,
    /// The members in JSON.
    pub fields: String,
    pub definition_hash: Option<String>,
    pub types: Option<String>,
}

/// Whether a row has what a type says of itself, but for its size, its list and
/// its definition.
pub open spec fn describes_type(row: TypeRow, t: TypeInfo, fields: Seq<char>) -> bool {
    &&& row.name == t.name
    &&& row.file_path == t.file_path
    &&& row.git_file_hash == t.git_file_hash
    &&& row.line == t.line_start
    &&& row.kind == t.kind
    &&& row.fields@ == fields
}

/// Whether a row is how a type is stored.
pub open spec fn stores_type(
    row: TypeRow,
    t: TypeInfo,
    fields: Seq<char>,
    definition_hash: Seq<char>,
) -> bool {
    &&& describes_type(row, t, fields)
    &&& row.size == (match t.size {
        Some(size) => Some(size as i64),
        None => None,
    })
    &&& maybe_text(row.definition_hash) == (if t.definition@.len() == 0 {
        None
    } else {
        Some(definition_hash)
    })
    &&& stores_names(row.types, t.types)
}

/// The row that stores a type whose definition has a hash, with its members in
/// JSON. A type without a definition has no hash.
pub fn write_type(t: &TypeInfo, fields: &str, definition_hash: &str) -> (r: Result<
    TypeRow,
    String,
>)
    ensures
        match r {
            Ok(row) => stores_type(row, *t, fields@, definition_hash@),
            Err(_) => false,
        },
{
    let types = match column_of_names(&t.types) {
        Ok(types) => types,
        Err(message) => {
            return Err(message);
        },
    };
    Ok(
        TypeRow {
            name: t.name.clone(),
            file_path: t.file_path.clone(),
            git_file_hash: t.git_file_hash.clone(),
            line: t.line_start as i64,
            kind: t.kind.clone(),
            size: match t.size {
                Some(size) => Some(
                    #[verifier::truncate]
                    (size as i64),
                ),
                None => None,
            },
            fields: String::from_str(fields),
            definition_hash: if t.definition.as_str().is_empty() {
                None
            } else {
                Some(String::from_str(definition_hash))
            },
            types,
        },
    )
}

/// Whether a row is how a type is stored when its definition is stored apart.
pub open spec fn stores_type_metadata(
    row: TypeRow,
    t: TypeInfo,
    fields: Seq<char>,
    definition_hash: Seq<char>,
) -> bool {
    &&& describes_type(row, t, fields)
    &&& row.size == Some(
        match t.size {
            Some(size) => size as i64,
            None => 0i64,
        },
    )
    &&& maybe_text(row.definition_hash) == Some(
        if t.definition@.len() == 0 {
            Seq::empty()
        } else {
            definition_hash
        },
    )
    &&& fills_names(row.types, t.types)
}

/// The row that stores a type when its definition is stored apart: no column is
/// null, and a size that is not known is stored as none at all.
pub fn write_type_metadata(t: &TypeInfo, fields: &str, definition_hash: &str) -> (r: TypeRow)
    ensures
        stores_type_metadata(r, *t, fields@, definition_hash@),
{
    let hash = if t.definition.as_str().is_empty() {
        String::new()
    } else {
        String::from_str(definition_hash)
    };
    assert(t.definition@.len() == 0 ==> hash@ =~= Seq::empty());
    TypeRow {
        name: t.name.clone(),
        file_path: t.file_path.clone(),
        git_file_hash: t.git_file_hash.clone(),
        line: t.line_start as i64,
        kind: t.kind.clone(),
        size: match t.size {
            Some(size) => Some(
                #[verifier::truncate]
                (size as i64),
            ),
            None => Some(0),
        },
        fields: String::from_str(fields),
        definition_hash: Some(hash),
        types: filled_column(&t.types),
    }
}

/// Whether a row reads as a type.
pub open spec fn reads_type(row: TypeRow, members: Vec<FieldInfo>, t: TypeMetadata) -> bool {
    &&& t.name == row.name
    &&& t.file_path == row.file_path
    &&& t.git_file_hash == row.git_file_hash
    &&& t.line_start == row.line as u32
    &&& t.kind == row.kind
    &&& t.size == (match row.size {
        Some(size) => Some(size as u64),
        None => None,
    })
    &&& t.members == members
    &&& t.definition_hash == row.definition_hash
    &&& maybe_texts(t.types) == read_calls(row.types)
}

/// Reads a stored type whose members were read. A list of types that cannot be
/// read is not known.
pub fn read_type(row: TypeRow, members: Vec<FieldInfo>) -> (r: TypeMetadata)
    ensures
        reads_type(row, members, r),
{
    let types = match &row.types {
        Some(json) => parse_type_list(json.as_str()),
        None => None,
    };
    TypeMetadata {
        name: row.name,
        file_path: row.file_path,
        git_file_hash: row.git_file_hash,
        line_start: #[verifier::truncate]
        (row.line as u32),
        kind: row.kind,
        size: match row.size {
            Some(size) => Some(
                #[verifier::truncate]
                (size as u64),
            ),
            None => None,
        },
        members,
        definition_hash: row.definition_hash,
        types,
    }
}

/// A type reads back as it was stored, with the members that were read.
pub proof fn types_read_back(
    t: TypeInfo,
    json: Seq<char>,
    definition_hash: Seq<char>,
    row: TypeRow,
    members: Vec<FieldInfo>,
    read: TypeMetadata,
)
    requires
        stores_type(row, t, json, definition_hash),
        reads_type(row, members, read),
    ensures
        read.name == t.name,
        read.file_path == t.file_path,
        read.git_file_hash == t.git_file_hash,
        read.line_start == t.line_start,
        read.kind == t.kind,
        read.size == t.size,
        maybe_text(read.definition_hash) == (if t.definition@.len() == 0 {
            None
        } else {
            Some(definition_hash)
        }),
        maybe_texts(read.types) == maybe_texts(t.types),
{
    if t.size is Some {
        lemma_signed_and_back(t.size->0);
    }
}

/// A site as it is stored. The text of its target is empty where it names none.
#[derive(Debug, Clone)]
pub struct DispatchSiteRow {
    pub caller_name: String,
    pub file_path: String,
    pub git_file_hash: String,
    pub byte_start: i64,
    pub line: i64,
    pub member: String,
    pub receiver_expr: Option<String>,
    pub receiver_type: Option<String>,
    pub receiver_base_type: Option<String>,
    pub receiver_field: Option<String>,
    pub kind: String,
    pub target: Option<String>,
}

/// Whether a row is how a site is stored.
pub open spec fn stores_site(row: DispatchSiteRow, site: DispatchSite) -> bool {
    &&& row.caller_name == site.caller_name
    &&& row.file_path == site.file_path
    &&& row.git_file_hash == site.git_file_hash
    &&& row.byte_start == site.byte_start as i64
    &&& row.line == site.line
    &&& row.member == site.member
    &&& row.receiver_expr == site.receiver_expr
    &&& row.receiver_type == site.receiver_type
    &&& row.receiver_base_type == site.receiver_base_type
    &&& row.receiver_field == site.receiver_field
    &&& row.kind@ == site.kind.text()
    &&& match site.target {
        Some(_) => row.target == site.target,
        None => maybe_text(row.target) == Some(Seq::<char>::empty()),
    }
}

/// The row that stores a site.
pub fn write_site(site: DispatchSite) -> (r: DispatchSiteRow)
    ensures
        stores_site(r, site),
{
    let target = match site.target {
        Some(target) => Some(target),
        None => {
            let empty = String::new();
            assert(empty@ =~= Seq::<char>::empty());
            Some(empty)
        },
    };
    DispatchSiteRow {
        caller_name: site.caller_name,
        file_path: site.file_path,
        git_file_hash: site.git_file_hash,
        byte_start: #[verifier::truncate]
        (site.byte_start as i64),
        line: site.line as i64,
        member: site.member,
        receiver_expr: site.receiver_expr,
        receiver_type: site.receiver_type,
        receiver_base_type: site.receiver_base_type,
        receiver_field: site.receiver_field,
        kind: String::from_str(site.kind.as_str()),
        target,
    }
}

/// An optional text, where an empty one stands for none.
pub open spec fn unless_empty(text: Option<String>) -> Option<Seq<char>> {
    match text {
        Some(text) => if text@.len() == 0 {
            None
        } else {
            Some(text@)
        },
        None => None,
    }
}

fn drop_empty(text: Option<String>) -> (r: Option<String>)
    ensures
        maybe_text(r) == unless_empty(text),
        r is Some ==> r == text,
{
    match text {
        Some(text) => {
            if text.as_str().is_empty() {
                None
            } else {
                Some(text)
            }
        },
        None => None,
    }
}

/// Whether a row reads as a site of a kind.
pub open spec fn reads_site(row: DispatchSiteRow, site: DispatchSite) -> bool {
    &&& site.caller_name == row.caller_name
    &&& site.file_path == row.file_path
    &&& site.git_file_hash == row.git_file_hash
    &&& site.byte_start == row.byte_start as u64
    &&& site.line == row.line as u32
    &&& site.member == row.member
    &&& site.receiver_expr == row.receiver_expr
    &&& site.receiver_type == row.receiver_type
    &&& site.receiver_base_type == row.receiver_base_type
    &&& site.receiver_field == row.receiver_field
    &&& site.kind.text() == row.kind@
    &&& maybe_text(site.target) == unless_empty(row.target)
    &&& site.target is Some ==> site.target == row.target
}

/// Reads a stored site. A kind that is not known is an error.
pub fn read_site(row: DispatchSiteRow) -> (r: Result<DispatchSite, String>)
    ensures
        match r {
            Ok(site) => reads_site(row, site),
            Err(message) => (forall|kind: DispatchKind| row.kind@ != #[trigger] kind.text())
                && message@ == "unknown dispatch kind '"@ + row.kind@ + "'"@,
        },
{
    let kind = match DispatchKind::from_column_value(row.kind.as_str()) {
        Some(kind) => kind,
        None => {
            let mut message = String::from_str("unknown dispatch kind '");
            message.append(row.kind.as_str());
            message.append("'");
            return Err(message);
        },
    };
    Ok(
        DispatchSite {
            caller_name: row.caller_name,
            file_path: row.file_path,
            git_file_hash: row.git_file_hash,
            byte_start: #[verifier::truncate]
            (row.byte_start as u64),
            line: #[verifier::truncate]
            (row.line as u32),
            member: row.member,
            receiver_expr: row.receiver_expr,
            receiver_type: row.receiver_type,
            receiver_base_type: row.receiver_base_type,
            receiver_field: row.receiver_field,
            kind,
            target: drop_empty(row.target),
        },
    )
}

/// A site reads back as it was stored, unless it names a target without a name.
pub proof fn sites_read_back(site: DispatchSite, row: DispatchSiteRow, read: DispatchSite)
    requires
        stores_site(row, site),
        reads_site(row, read),
        site.target is Some ==> (site.target->0)@.len() > 0,
    ensures
        read == site,
{
    lemma_signed_and_back(site.byte_start);
    crate::types::dispatch_kinds_have_different_texts(read.kind, site.kind);
}

/// A registration as it is stored.
#[derive(Debug, Clone)]
pub struct RegistrationRow {
    pub container_type: String,
    pub container_base_type: Option<String>,
    pub container_field: Option<String>,
    pub member: String,
    pub target: String,
    pub file_path: String,
    pub git_file_hash: String,
    pub byte_start: i64,
    pub line: i64,
    pub enclosing_function: String,
    pub kind: String,
}

/// Whether a row is how a registration is stored.
pub open spec fn stores_registration(row: RegistrationRow, r: Registration) -> bool {
    &&& row.container_type == r.container_type
    &&& row.container_base_type == r.container_base_type
    &&& row.container_field == r.container_field
    &&& row.member == r.member
    &&& row.target == r.target
    &&& row.file_path == r.file_path
    &&& row.git_file_hash == r.git_file_hash
    &&& row.byte_start == r.byte_start as i64
    &&& row.line == r.line
    &&& row.enclosing_function == r.enclosing_function
    &&& row.kind@ == r.kind.text()
}

/// The row that stores a registration.
pub fn write_registration(registration: Registration) -> (r: RegistrationRow)
    ensures
        stores_registration(r, registration),
{
    RegistrationRow {
        container_type: registration.container_type,
        container_base_type: registration.container_base_type,
        container_field: registration.container_field,
        member: registration.member,
        target: registration.target,
        file_path: registration.file_path,
        git_file_hash: registration.git_file_hash,
        byte_start: #[verifier::truncate]
        (registration.byte_start as i64),
        line: registration.line as i64,
        enclosing_function: registration.enclosing_function,
        kind: String::from_str(registration.kind.as_str()),
    }
}

/// Whether a row reads as a registration of a kind.
pub open spec fn reads_registration(row: RegistrationRow, r: Registration) -> bool {
    &&& r.container_type == row.container_type
    &&& maybe_text(r.container_base_type) == unless_empty(row.container_base_type)
    &&& r.container_base_type is Some ==> r.container_base_type == row.container_base_type
    &&& maybe_text(r.container_field) == unless_empty(row.container_field)
    &&& r.container_field is Some ==> r.container_field == row.container_field
    &&& r.member == row.member
    &&& r.target == row.target
    &&& r.file_path == row.file_path
    &&& r.git_file_hash == row.git_file_hash
    &&& r.byte_start == row.byte_start as u64
    &&& r.line == row.line as u32
    &&& r.enclosing_function == row.enclosing_function
    &&& r.kind.text() == row.kind@
}

/// Reads a stored registration. A kind that is not known is an error.
pub fn read_registration(row: RegistrationRow) -> (r: Result<Registration, String>)
    ensures
        match r {
            Ok(registration) => reads_registration(row, registration),
            Err(message) => (forall|kind: RegistrationKind| row.kind@ != #[trigger] kind.text())
                && message@ == "unknown registration kind '"@ + row.kind@ + "'"@,
        },
{
    let kind = match RegistrationKind::from_column_value(row.kind.as_str()) {
        Some(kind) => kind,
        None => {
            let mut message = String::from_str("unknown registration kind '");
            message.append(row.kind.as_str());
            message.append("'");
            return Err(message);
        },
    };
    Ok(
        Registration {
            container_type: row.container_type,
            member: row.member,
            target: row.target,
            file_path: row.file_path,
            git_file_hash: row.git_file_hash,
            byte_start: #[verifier::truncate]
            (row.byte_start as u64),
            line: #[verifier::truncate]
            (row.line as u32),
            enclosing_function: row.enclosing_function,
            kind,
            container_base_type: drop_empty(row.container_base_type),
            container_field: drop_empty(row.container_field),
        },
    )
}

/// A registration reads back as it was stored, unless it has a container made
/// through a field without a name.
pub proof fn registrations_read_back(r: Registration, row: RegistrationRow, read: Registration)
    requires
        stores_registration(row, r),
        reads_registration(row, read),
        r.container_base_type is Some ==> (r.container_base_type->0)@.len() > 0,
        r.container_field is Some ==> (r.container_field->0)@.len() > 0,
    ensures
        read == r,
{
    lemma_signed_and_back(r.byte_start);
    assert(read.kind == r.kind);
}

/// An argument that names a function, as it is stored.
#[derive(Debug, Clone)]
pub struct ArgumentRow {
    pub target: String,
    pub callee: String,
    pub argument_index: i64,
    pub taken_address: bool,
    pub file_path: String,
    pub git_file_hash: String,
    pub byte_start: i64,
    pub line: i64,
    pub enclosing_function: String,
}

/// Whether a row is how an argument is stored.
pub open spec fn stores_argument(row: ArgumentRow, a: ArgumentFunction) -> bool {
    &&& row.target == a.target
    &&& row.callee == a.callee
    &&& row.argument_index == a.argument_index
    &&& row.taken_address == a.taken_address
    &&& row.file_path == a.file_path
    &&& row.git_file_hash == a.git_file_hash
    &&& row.byte_start == a.byte_start as i64
    &&& row.line == a.line
    &&& row.enclosing_function == a.enclosing_function
}

/// The row that stores an argument.
pub fn write_argument(argument: ArgumentFunction) -> (r: ArgumentRow)
    ensures
        stores_argument(r, argument),
{
    ArgumentRow {
        target: argument.target,
        callee: argument.callee,
        argument_index: argument.argument_index as i64,
        taken_address: argument.taken_address,
        file_path: argument.file_path,
        git_file_hash: argument.git_file_hash,
        byte_start: #[verifier::truncate]
        (argument.byte_start as i64),
        line: argument.line as i64,
        enclosing_function: argument.enclosing_function,
    }
}

/// Whether a row reads as an argument.
pub open spec fn reads_argument(row: ArgumentRow, a: ArgumentFunction) -> bool {
    &&& a.target == row.target
    &&& a.callee == row.callee
    &&& a.argument_index == row.argument_index as u32
    &&& a.taken_address == row.taken_address
    &&& a.file_path == row.file_path
    &&& a.git_file_hash == row.git_file_hash
    &&& a.byte_start == row.byte_start as u64
    &&& a.line == row.line as u32
    &&& a.enclosing_function == row.enclosing_function
    &&& a.subject_type is None
    &&& a.subject_member is None
}

/// Reads a stored argument. What else was handed over in the call is not stored.
pub fn read_argument(row: ArgumentRow) -> (r: ArgumentFunction)
    ensures
        reads_argument(row, r),
{
    ArgumentFunction {
        target: row.target,
        callee: row.callee,
        argument_index: #[verifier::truncate]
        (row.argument_index as u32),
        taken_address: row.taken_address,
        file_path: row.file_path,
        git_file_hash: row.git_file_hash,
        byte_start: #[verifier::truncate]
        (row.byte_start as u64),
        line: #[verifier::truncate]
        (row.line as u32),
        enclosing_function: row.enclosing_function,
        subject_type: None,
        subject_member: None,
    }
}

/// An argument reads back as it was stored, where nothing else was handed over.
pub proof fn arguments_read_back(a: ArgumentFunction, row: ArgumentRow, read: ArgumentFunction)
    requires
        stores_argument(row, a),
        reads_argument(row, read),
        a.subject_type is None,
        a.subject_member is None,
    ensures
        read == a,
{
    lemma_signed_and_back(a.byte_start);
}

/// A file that was read, as it is stored.
#[derive(Debug, Clone)]
pub struct ProcessedFileRow {
    pub file: String,
    pub git_sha: Option<String>,
    pub git_file_sha: String,
    /// Absent in rows written before the column existed.
    pub extractor_version: Option<i64>,
}

/// Whether a row is how a record is stored.
pub open spec fn stores_record(row: ProcessedFileRow, record: ProcessedFileRecord) -> bool {
    &&& row.file == record.file
    &&& row.git_sha == record.git_sha
    &&& row.git_file_sha == record.git_file_sha
    &&& row.extractor_version == (match record.extractor_version {
        Some(version) => Some(version as i64),
        None => None,
    })
}

/// The row that stores a record.
pub fn write_record(record: ProcessedFileRecord) -> (r: ProcessedFileRow)
    ensures
        stores_record(r, record),
{
    ProcessedFileRow {
        file: record.file,
        git_sha: record.git_sha,
        git_file_sha: record.git_file_sha,
        extractor_version: match record.extractor_version {
            Some(version) => Some(version as i64),
            None => None,
        },
    }
}

/// Whether a row reads as a record.
pub open spec fn reads_record(row: ProcessedFileRow, record: ProcessedFileRecord) -> bool {
    &&& record.file == row.file
    &&& record.git_sha == row.git_sha
    &&& record.git_file_sha == row.git_file_sha
    &&& record.extractor_version == (match row.extractor_version {
        Some(version) => Some(version as u32),
        None => None,
    })
}

/// Reads a stored record.
pub fn read_record(row: ProcessedFileRow) -> (r: ProcessedFileRecord)
    ensures
        reads_record(row, r),
{
    ProcessedFileRecord {
        file: row.file,
        git_sha: row.git_sha,
        git_file_sha: row.git_file_sha,
        extractor_version: match row.extractor_version {
            Some(version) => Some(
                #[verifier::truncate]
                (version as u32),
            ),
            None => None,
        },
    }
}

/// A record reads back as it was stored.
pub proof fn records_read_back(
    record: ProcessedFileRecord,
    row: ProcessedFileRow,
    read: ProcessedFileRecord,
)
    requires
        stores_record(row, record),
        reads_record(row, read),
    ensures
        read == record,
{
}

/// What makes two sites one: where the site is, and what it names.
pub open spec fn site_key(site: DispatchSite) -> (Seq<char>, Seq<char>, u64, Option<Seq<char>>) {
    (site.file_path@, site.git_file_hash@, site.byte_start, maybe_text(site.target))
}

/// Keeps one site for each place and target, the last. A batch spanning commits
/// holds the same file at the same hash twice.
pub fn one_site_per_place(sites: Vec<DispatchSite>) -> (r: Vec<DispatchSite>)
    ensures
        r@ == kept(
            sites@,
            last_of_key(sites@.map_values(|site: DispatchSite| site_key(site))),
        ),
{
    let ghost all = sites@;
    let ghost wanted = all.map_values(|site: DispatchSite| site_key(site));
    let key = |site: &DispatchSite| -> (k: (String, String, u64, Option<String>))
        ensures
            k.deep_view() == site_key(*site),
        {
            let k = (
                site.file_path.clone(),
                site.git_file_hash.clone(),
                site.byte_start,
                copy_maybe(&site.target),
            );
            assert(k.deep_view() == site_key(*site));
            k
        };
    let r = one_row_per_key(sites, key);
    proof {
        let keys = choose|keys: Seq<(Seq<char>, Seq<char>, u64, Option<Seq<char>>)>|
            crate::keyed::keys_given(all, key, keys) && r@ == #[trigger] kept(
                all,
                last_of_key(keys),
            );
        assert forall|i: int| 0 <= i < all.len() implies keys[i] == wanted[i] by {
            assert(crate::keyed::gives_key(key, all[i], keys[i]));
        }
        assert(keys =~= wanted);
    }
    r
}

/// What makes two macros one: the name, and where it is defined.
pub open spec fn macro_key(m: ObjectMacro) -> (Seq<char>, Seq<char>, Seq<char>) {
    (m.name@, m.file_path@, m.git_file_hash@)
}

/// Keeps one macro for each definition, the last.
pub fn one_macro_per_definition(macros: Vec<ObjectMacro>) -> (r: Vec<ObjectMacro>)
    ensures
        r@ == kept(macros@, last_of_key(macros@.map_values(|m: ObjectMacro| macro_key(m)))),
{
    let ghost all = macros@;
    let ghost wanted = all.map_values(|m: ObjectMacro| macro_key(m));
    let key = |m: &ObjectMacro| -> (k: (String, String, String))
        ensures
            k.deep_view() == macro_key(*m),
        {
            let k = (m.name.clone(), m.file_path.clone(), m.git_file_hash.clone());
            assert(k.deep_view() == macro_key(*m));
            k
        };
    let r = one_row_per_key(macros, key);
    proof {
        let keys = choose|keys: Seq<(Seq<char>, Seq<char>, Seq<char>)>|
            crate::keyed::keys_given(all, key, keys) && r@ == #[trigger] kept(
                all,
                last_of_key(keys),
            );
        assert forall|i: int| 0 <= i < all.len() implies keys[i] == wanted[i] by {
            assert(crate::keyed::gives_key(key, all[i], keys[i]));
        }
        assert(keys =~= wanted);
    }
    r
}

/// What the first of some macros with a name stands for.
pub open spec fn first_expansion(macros: Seq<(String, String)>, name: Seq<char>) -> Option<
    Seq<char>,
>
    decreases macros.len(),
{
    if macros.len() == 0 {
        None
    } else {
        let before = first_expansion(macros.drop_last(), name);
        if before is Some {
            before
        } else if macros.last().0@ == name {
            Some(macros.last().1@)
        } else {
            None
        }
    }
}

/// Every macro, by name, with what it expands to. A macro defined in several files
/// under one name: the first wins.
pub fn all_macros(macros: Vec<(String, String)>) -> (r: NameMap<String>)
    ensures
        r.wf(),
        forall|name: Seq<char>|
            (if #[trigger] r@.contains_key(name) {
                Some(r@[name]@)
            } else {
                None
            }) == first_expansion(macros@, name),
{
    let ghost all = macros@;
    let mut out: NameMap<String> = NameMap::new();
    assert(all.take(0) =~= Seq::empty());
    for entry in it: macros
        invariant
            it.seq() == all,
            out.wf(),
            forall|name: Seq<char>|
                (if #[trigger] out@.contains_key(name) {
                    Some(out@[name]@)
                } else {
                    None
                }) == first_expansion(all.take(it.index()), name),
    {
        let ghost had = out@;
        let ghost entry_name = entry.0@;
        proof {
            assert(all.take(it.index() + 1).drop_last() =~= all.take(it.index()));
            assert(all.take(it.index() + 1).last() == entry);
        }
        let (name, expansion) = entry;
        if !out.contains(name.as_str()) {
            out.insert(name, expansion);
        }
        proof {
            assert forall|name: Seq<char>|
                (if #[trigger] out@.contains_key(name) {
                    Some(out@[name]@)
                } else {
                    None
                }) == first_expansion(all.take(it.index() + 1), name) by {
                assert((if had.contains_key(name) {
                    Some(had[name]@)
                } else {
                    None
                }) == first_expansion(all.take(it.index()), name));
            }
        }
    }
    assert(all.take(all.len() as int) =~= all);
    out
}

/// The last of some rows with a name.
pub open spec fn last_named<T: Named>(rows: Seq<T>, name: Seq<char>) -> Option<T>
    decreases rows.len(),
{
    if rows.len() == 0 {
        None
    } else if rows.last().named() == name {
        Some(rows.last())
    } else {
        last_named(rows.drop_last(), name)
    }
}

/// Rows by name, the last of each.
pub fn last_by_name<T: Named>(rows: Vec<T>) -> (r: NameMap<T>)
    ensures
        r.wf(),
        forall|name: Seq<char>|
            (if #[trigger] r@.contains_key(name) {
                Some(r@[name])
            } else {
                None
            }) == last_named(rows@, name),
{
    let ghost all = rows@;
    let mut out: NameMap<T> = NameMap::new();
    assert(all.take(0) =~= Seq::empty());
    for row in it: rows
        invariant
            it.seq() == all,
            out.wf(),
            forall|name: Seq<char>|
                (if #[trigger] out@.contains_key(name) {
                    Some(out@[name])
                } else {
                    None
                }) == last_named(all.take(it.index()), name),
    {
        let ghost had = out@;
        proof {
            assert(all.take(it.index() + 1).drop_last() =~= all.take(it.index()));
            assert(all.take(it.index() + 1).last() == row);
        }
        let name = String::from_str(row.name());
        out.insert(name, row);
        proof {
            assert forall|name: Seq<char>|
                (if #[trigger] out@.contains_key(name) {
                    Some(out@[name])
                } else {
                    None
                }) == last_named(all.take(it.index() + 1), name) by {
                assert((if had.contains_key(name) {
                    Some(had[name])
                } else {
                    None
                }) == last_named(all.take(it.index()), name));
            }
        }
    }
    assert(all.take(all.len() as int) =~= all);
    out
}

/// Selects the definitions of a function in a file.
pub fn function_in_file_filter(name: &str, file_path: &str) -> (r: String)
    ensures
        r@ == both(equals("name"@, name@), equals("file_path"@, file_path@)),
{
    both_filter(
        equals_filter("name", name).as_str(),
        equals_filter("file_path", file_path).as_str(),
    )
}

/// The first function that stands in a file of a content.
pub open spec fn first_of_content(functions: Seq<FunctionInfo>, hash: Seq<char>) -> Option<
    FunctionInfo,
>
    decreases functions.len(),
{
    if functions.len() == 0 {
        None
    } else if functions[0].git_file_hash@ == hash {
        Some(functions[0])
    } else {
        first_of_content(functions.skip(1), hash)
    }
}

/// Find function by name, file path, and exact git file hash - for targeted git-aware lookups
pub fn find_by_name_file_and_hash(functions: Vec<FunctionInfo>, git_file_hash: &str) -> (r: Option<
    FunctionInfo,
>)
    ensures
        r == first_of_content(functions@, git_file_hash@),
{
    let mut place: usize = functions.len();
    let mut i: usize = 0;
    assert(functions@.skip(0) =~= functions@);
    while i < functions.len() && place == functions.len()
        invariant
            i <= functions@.len(),
            place <= functions@.len(),
            place == functions@.len() ==> first_of_content(
                functions@.skip(i as int),
                git_file_hash@,
            ) == first_of_content(functions@, git_file_hash@),
            place < functions@.len() ==> first_of_content(functions@, git_file_hash@) == Some(
                functions@[place as int],
            ),
        decreases functions@.len() - i,
    {
        assert(functions@.skip(i as int).skip(1) =~= functions@.skip(i + 1));
        assert(functions@.skip(i as int)[0] == functions@[i as int]);
        if str_eq(functions[i].git_file_hash.as_str(), git_file_hash) {
            place = i;
        }
        i += 1;
    }
    let mut functions = functions;
    if place < functions.len() {
        Some(functions.swap_remove(place))
    } else {
        None
    }
}

/// The number of names that one query asks for.
pub const NAMES_PER_QUERY: usize = 100;

/// The number of rows of a page.
pub const PAGE_SIZE: usize = 10000;

/// Reading a table page by page.
pub struct Paging {
    /// Where the next page begins.
    pub offset: usize,
}

impl Paging {
    pub fn begin() -> (r: Self)
        ensures
            r.offset == 0,
    {
        Paging { offset: 0 }
    }

    /// Takes in how many rows a page had; says whether it was the last, which is
    /// the first that is not full.
    pub fn page(&mut self, rows: usize) -> (done: bool)
        requires
            old(self).offset + PAGE_SIZE <= usize::MAX,
        ensures
            done == (rows < PAGE_SIZE),
            final(self).offset == old(self).offset + PAGE_SIZE,
    {
        self.offset = self.offset + PAGE_SIZE;
        rows < PAGE_SIZE
    }
}

/// Selects the typedefs.
pub open spec fn typedefs() -> Seq<char> {
    "kind = 'typedef'"@
}

/// Selects the typedefs that a filter selects.
pub open spec fn typedefs_among(filter: Seq<char>) -> Seq<char> {
    filter + " AND kind = 'typedef'"@
}

/// Selects the typedefs that a filter selects.
pub fn typedefs_filter(filter: &str) -> (r: String)
    ensures
        r@ == typedefs_among(filter@),
{
    let mut out = String::from_str(filter);
    out.append(" AND kind = 'typedef'");
    out
}

} // verus!
