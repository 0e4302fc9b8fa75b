//! What is stored and what is read, column by column, said of what is handed in and
//! what comes back.
use vstd::prelude::*;
use vstd::utf8::encode_utf8;
use crate::commits::{read_commit, write_commit, CommitRow, GitCommitInfo};
use crate::json::{json_names, object_complaint, parse_call_list, parse_type_list};
use crate::keyed::{first_of_key, is_flagged_row, kept, kept_is_what_is_flagged, last_of_key};
use crate::lore::{read_email, write_email, LoreEmailInfo, LoreRow};
use crate::names::NameMap;
use crate::overlay::lemma_filter_contains;
use crate::revision::maybe_text;
use crate::rows::{
    all_macros, find_by_name_file_and_hash, first_expansion, first_of_content, last_named,
    macro_key, maybe_texts, one_macro_per_definition, one_site_per_place, read_argument,
    read_function, read_record, read_registration, read_site, read_type, site_key, write_argument,
    write_function, write_function_metadata, write_record, write_registration, write_site,
    write_type, write_type_metadata, ArgumentRow, DispatchSiteRow, FunctionRow, ProcessedFileRow,
    RegistrationRow, TypeRow,
};
use crate::stored::{
    content_placeholder, metadata_into_function, metadata_into_type, metadata_only_function,
    metadata_only_type, one_type_per_key, prefer_definitions, type_key, typedef_from_type,
    typedef_into_type, FunctionMetadata, ProcessedFileRecord, TypeMetadata,
};
use crate::text::texts;
use crate::types::{
    ArgumentFunction, DispatchKind, DispatchSite, FieldInfo, FunctionInfo, Named, ObjectMacro,
    ParameterInfo, Registration, RegistrationKind, TypeInfo, TypedefInfo,
};

verus! {

/// Whether a column holds a list of names in JSON.
pub open spec fn holds_names(column: Option<String>, names: Option<Vec<String>>) -> bool {
    match names {
        Some(names) => column is Some && json_names((column->0)@) == Ok::<
            Seq<Seq<char>>,
            Seq<char>,
        >(texts(names@)),
        None => column is None,
    }
}

/// The columns of a stored function are those of the function; its body is stored
/// under the hash, and where there is no body there is none.
pub proof fn functions_are_stored_by_column(
    f: &FunctionInfo,
    parameters: &str,
    body_hash: &str,
    row: FunctionRow,
)
    requires
        call_ensures(
            write_function,
            (f, parameters, body_hash),
            Ok::<FunctionRow, String>(row),
        ),
    ensures
        row.name@ == f.name@,
        row.file_path@ == f.file_path@,
        row.git_file_hash@ == f.git_file_hash@,
        row.line_start == f.line_start,
        row.line_end == f.line_end,
        row.return_type@ == f.return_type@,
        row.parameters@ == parameters@,
        f.body@.len() == 0 ==> row.body_hash is None,
        f.body@.len() > 0 ==> row.body_hash is Some && (row.body_hash->0)@ == body_hash@,
        holds_names(row.calls, f.calls),
        holds_names(row.types, f.types),
{
}

/// Where a body is stored apart the columns are the same, and none is null.
pub proof fn function_metadata_is_stored_by_column(
    f: &FunctionInfo,
    parameters: &str,
    body_hash: &str,
    row: FunctionRow,
)
    requires
        call_ensures(write_function_metadata, (f, parameters, body_hash), row),
    ensures
        row.name@ == f.name@,
        row.file_path@ == f.file_path@,
        row.git_file_hash@ == f.git_file_hash@,
        row.line_start == f.line_start,
        row.line_end == f.line_end,
        row.return_type@ == f.return_type@,
        row.parameters@ == parameters@,
        row.body_hash is Some,
        f.body@.len() == 0 ==> (row.body_hash->0)@.len() == 0,
        f.body@.len() > 0 ==> (row.body_hash->0)@ == body_hash@,
        f.calls is Some ==> holds_names(row.calls, f.calls),
        f.calls is None ==> row.calls is Some && (row.calls->0)@.len() == 0,
        f.types is Some ==> holds_names(row.types, f.types),
        f.types is None ==> row.types is Some && (row.types->0)@.len() == 0,
{
}

/// A stored function reads as its columns say. It fails to read just where its list
/// of calls is there and is no list of names.
pub proof fn functions_are_read_by_column(
    row: FunctionRow,
    parameters: Vec<ParameterInfo>,
    r: Result<FunctionMetadata, String>,
)
    requires
        call_ensures(read_function, (row, parameters), r),
    ensures
        r is Err <==> row.calls is Some && json_names((row.calls->0)@) is Err,
        r matches Ok(f) ==> {
            &&& f.name@ == row.name@
            &&& f.file_path@ == row.file_path@
            &&& f.git_file_hash@ == row.git_file_hash@
            &&& f.line_start == row.line_start as u32
            &&& f.line_end == row.line_end as u32
            &&& f.return_type@ == row.return_type@
            &&& f.parameters == parameters
            &&& maybe_text(f.body_hash) == maybe_text(row.body_hash)
            &&& f.calls is Some <==> row.calls is Some
            &&& f.calls is Some ==> json_names((row.calls->0)@) == Ok::<
                Seq<Seq<char>>,
                Seq<char>,
            >(texts((f.calls->0)@))
            &&& f.types is Some <==> row.types is Some && json_names((row.types->0)@) is Ok
            &&& f.types is Some ==> json_names((row.types->0)@) == Ok::<
                Seq<Seq<char>>,
                Seq<char>,
            >(texts((f.types->0)@))
        },
{
}

/// The columns of a stored type are those of the type.
pub proof fn types_are_stored_by_column(
    t: &TypeInfo,
    fields: &str,
    definition_hash: &str,
    row: TypeRow,
    apart: TypeRow,
)
    requires
        call_ensures(write_type, (t, fields, definition_hash), Ok::<TypeRow, String>(row)),
        call_ensures(write_type_metadata, (t, fields, definition_hash), apart),
    ensures
        row.name@ == t.name@ && apart.name@ == t.name@,
        row.file_path@ == t.file_path@ && apart.file_path@ == t.file_path@,
        row.git_file_hash@ == t.git_file_hash@ && apart.git_file_hash@ == t.git_file_hash@,
        row.line == t.line_start && apart.line == t.line_start,
        row.kind@ == t.kind@ && apart.kind@ == t.kind@,
        row.fields@ == fields@ && apart.fields@ == fields@,
        t.size is None ==> row.size is None && apart.size == Some(0i64),
        t.size is Some ==> row.size == Some(t.size->0 as i64) && apart.size == row.size,
        t.definition@.len() == 0 ==> row.definition_hash is None && apart.definition_hash is Some
            && (apart.definition_hash->0)@.len() == 0,
        t.definition@.len() > 0 ==> row.definition_hash is Some && (row.definition_hash->0)@
            == definition_hash@ && maybe_text(apart.definition_hash) == maybe_text(
            row.definition_hash,
        ),
        holds_names(row.types, t.types),
        t.types is Some ==> holds_names(apart.types, t.types),
        t.types is None ==> apart.types is Some && (apart.types->0)@.len() == 0,
{
}

/// A stored type reads as its columns say.
pub proof fn types_are_read_by_column(row: TypeRow, members: Vec<FieldInfo>, t: TypeMetadata)
    requires
        call_ensures(read_type, (row, members), t),
    ensures
        t.name@ == row.name@,
        t.file_path@ == row.file_path@,
        t.git_file_hash@ == row.git_file_hash@,
        t.line_start == row.line as u32,
        t.kind@ == row.kind@,
        t.size is None <==> row.size is None,
        row.size is Some ==> t.size == Some(row.size->0 as u64),
        t.members == members,
        maybe_text(t.definition_hash) == maybe_text(row.definition_hash),
        t.types is Some <==> row.types is Some && json_names((row.types->0)@) is Ok,
        t.types is Some ==> json_names((row.types->0)@) == Ok::<Seq<Seq<char>>, Seq<char>>(
            texts((t.types->0)@),
        ),
{
}

/// The columns of a stored site are those of the site.
pub proof fn sites_are_stored_by_column(site: DispatchSite, row: DispatchSiteRow)
    requires
        call_ensures(write_site, (site,), row),
    ensures
        row.caller_name@ == site.caller_name@,
        row.file_path@ == site.file_path@,
        row.git_file_hash@ == site.git_file_hash@,
        row.byte_start == site.byte_start as i64,
        row.line == site.line,
        row.member@ == site.member@,
        maybe_text(row.receiver_expr) == maybe_text(site.receiver_expr),
        maybe_text(row.receiver_type) == maybe_text(site.receiver_type),
        maybe_text(row.receiver_base_type) == maybe_text(site.receiver_base_type),
        maybe_text(row.receiver_field) == maybe_text(site.receiver_field),
        site.kind == DispatchKind::MemberArrow ==> row.kind@ == "member_arrow"@,
        site.kind == DispatchKind::MacroDeclared ==> row.kind@ == "macro_declared"@,
        row.target is Some,
        site.target is Some ==> (row.target->0)@ == (site.target->0)@,
        site.target is None ==> (row.target->0)@.len() == 0,
{
}

/// A stored site reads as its columns say. It fails to read just where its kind is
/// none of those there are.
pub proof fn sites_are_read_by_column(row: DispatchSiteRow, r: Result<DispatchSite, String>)
    requires
        call_ensures(read_site, (row,), r),
    ensures
        r is Ok <==> row.kind@ == "member_arrow"@ || row.kind@ == "macro_declared"@,
        r matches Ok(site) ==> {
            &&& site.caller_name@ == row.caller_name@
            &&& site.file_path@ == row.file_path@
            &&& site.git_file_hash@ == row.git_file_hash@
            &&& site.byte_start == row.byte_start as u64
            &&& site.line == row.line as u32
            &&& site.member@ == row.member@
            &&& maybe_text(site.receiver_expr) == maybe_text(row.receiver_expr)
            &&& maybe_text(site.receiver_type) == maybe_text(row.receiver_type)
            &&& maybe_text(site.receiver_base_type) == maybe_text(row.receiver_base_type)
            &&& maybe_text(site.receiver_field) == maybe_text(row.receiver_field)
            &&& site.kind == DispatchKind::MemberArrow ==> row.kind@ == "member_arrow"@
            &&& site.kind == DispatchKind::MacroDeclared ==> row.kind@ == "macro_declared"@
            &&& site.target is Some <==> row.target is Some && (row.target->0)@.len() > 0
            &&& site.target is Some ==> (site.target->0)@ == (row.target->0)@
        },
{
    assert(DispatchKind::MemberArrow.text() == "member_arrow"@);
    assert(DispatchKind::MacroDeclared.text() == "macro_declared"@);
}

/// The columns of a stored registration are those of the registration, and it reads
/// as its columns say.
pub proof fn registrations_are_stored_by_column(
    g: Registration,
    row: RegistrationRow,
    stored: RegistrationRow,
    r: Result<Registration, String>,
)
    requires
        call_ensures(write_registration, (g,), row),
        call_ensures(read_registration, (stored,), r),
    ensures
        row.container_type@ == g.container_type@,
        maybe_text(row.container_base_type) == maybe_text(g.container_base_type),
        maybe_text(row.container_field) == maybe_text(g.container_field),
        row.member@ == g.member@,
        row.target@ == g.target@,
        row.file_path@ == g.file_path@,
        row.git_file_hash@ == g.git_file_hash@,
        row.byte_start == g.byte_start as i64,
        row.line == g.line,
        row.enclosing_function@ == g.enclosing_function@,
        row.kind@ == "designated_init"@,
        r is Ok <==> stored.kind@ == "designated_init"@,
        r matches Ok(x) ==> {
            &&& x.container_type@ == stored.container_type@
            &&& x.container_base_type is Some <==> stored.container_base_type is Some && (
            stored.container_base_type->0)@.len() > 0
            &&& x.container_base_type is Some ==> (x.container_base_type->0)@ == (
            stored.container_base_type->0)@
            &&& x.container_field is Some <==> stored.container_field is Some && (
            stored.container_field->0)@.len() > 0
            &&& x.container_field is Some ==> (x.container_field->0)@ == (
            stored.container_field->0)@
            &&& x.member@ == stored.member@
            &&& x.target@ == stored.target@
            &&& x.file_path@ == stored.file_path@
            &&& x.git_file_hash@ == stored.git_file_hash@
            &&& x.byte_start == stored.byte_start as u64
            &&& x.line == stored.line as u32
            &&& x.enclosing_function@ == stored.enclosing_function@
        },
{
    assert(RegistrationKind::DesignatedInit.text() == "designated_init"@);
    assert(g.kind == RegistrationKind::DesignatedInit);
}

/// The columns of a stored argument are those of the argument, and it reads as its
/// columns say.
pub proof fn arguments_are_stored_by_column(
    a: ArgumentFunction,
    row: ArgumentRow,
    stored: ArgumentRow,
    r: ArgumentFunction,
)
    requires
        call_ensures(write_argument, (a,), row),
        call_ensures(read_argument, (stored,), r),
    ensures
        row.target@ == a.target@ && r.target@ == stored.target@,
        row.callee@ == a.callee@ && r.callee@ == stored.callee@,
        row.argument_index == a.argument_index && r.argument_index == stored.argument_index as u32,
        row.taken_address == a.taken_address && r.taken_address == stored.taken_address,
        row.file_path@ == a.file_path@ && r.file_path@ == stored.file_path@,
        row.git_file_hash@ == a.git_file_hash@ && r.git_file_hash@ == stored.git_file_hash@,
        row.byte_start == a.byte_start as i64 && r.byte_start == stored.byte_start as u64,
        row.line == a.line && r.line == stored.line as u32,
        row.enclosing_function@ == a.enclosing_function@ && r.enclosing_function@
            == stored.enclosing_function@,
        r.subject_type is None && r.subject_member is None,
{
}

/// The columns of a stored record are those of the record, and it reads as its
/// columns say.
pub proof fn records_are_stored_by_column(
    record: ProcessedFileRecord,
    row: ProcessedFileRow,
    stored: ProcessedFileRow,
    r: ProcessedFileRecord,
)
    requires
        call_ensures(write_record, (record,), row),
        call_ensures(read_record, (stored,), r),
    ensures
        row.file@ == record.file@ && r.file@ == stored.file@,
        maybe_text(row.git_sha) == maybe_text(record.git_sha) && maybe_text(r.git_sha)
            == maybe_text(stored.git_sha),
        row.git_file_sha@ == record.git_file_sha@ && r.git_file_sha@ == stored.git_file_sha@,
        row.extractor_version is Some <==> record.extractor_version is Some,
        row.extractor_version is Some ==> row.extractor_version->0 == record.extractor_version->0,
        r.extractor_version is Some <==> stored.extractor_version is Some,
        r.extractor_version is Some ==> r.extractor_version->0
            == stored.extractor_version->0 as u32,
{
}

/// The columns of a stored email are those of the email, and it reads as its columns
/// say; symbols that cannot be read are none.
pub proof fn emails_are_stored_by_column(
    email: &LoreEmailInfo,
    row: LoreRow,
    stored: LoreRow,
    r: LoreEmailInfo,
)
    requires
        call_ensures(write_email, (email,), Ok::<LoreRow, String>(row)),
        call_ensures(read_email, (stored,), r),
    ensures
        row.git_commit_sha@ == email.git_commit_sha@ && r.git_commit_sha@ == stored.git_commit_sha@,
        row.from@ == email.from@ && r.from@ == stored.from@,
        row.date@ == email.date@ && r.date@ == stored.date@,
        row.date_timestamp == Some(email.date_timestamp),
        stored.date_timestamp is Some ==> r.date_timestamp == stored.date_timestamp->0,
        row.message_id@ == email.message_id@ && r.message_id@ == stored.message_id@,
        maybe_text(row.in_reply_to) == maybe_text(email.in_reply_to),
        maybe_text(r.in_reply_to) == maybe_text(stored.in_reply_to),
        row.subject@ == email.subject@ && r.subject@ == stored.subject@,
        maybe_text(row.references) == maybe_text(email.references),
        maybe_text(r.references) == maybe_text(stored.references),
        row.recipients@ == email.recipients@ && r.recipients@ == stored.recipients@,
        row.body@ == email.body@ && r.body@ == stored.body@,
        json_names(row.symbols@) == Ok::<Seq<Seq<char>>, Seq<char>>(texts(email.symbols@)),
        json_names(stored.symbols@) is Ok ==> texts(r.symbols@) == json_names(
            stored.symbols@,
        )->Ok_0,
        json_names(stored.symbols@) is Err ==> r.symbols@.len() == 0,
{
    assert(texts(r.symbols@).len() == r.symbols@.len());
}

/// The columns of a stored commit are those of the commit.
pub proof fn commits_are_stored_by_column(commit: GitCommitInfo, row: CommitRow)
    requires
        call_ensures(write_commit, (commit,), Ok::<CommitRow, String>(row)),
    ensures
        row.git_sha@ == commit.git_sha@,
        row.author@ == commit.author@,
        row.subject@ == commit.subject@,
        row.message@ == commit.message@,
        row.diff@ == commit.diff@,
        row.tags@ == commit.tags@,
        json_names(row.parent_sha@) == Ok::<Seq<Seq<char>>, Seq<char>>(texts(commit.parent_sha@)),
        json_names(row.symbols@) == Ok::<Seq<Seq<char>>, Seq<char>>(texts(commit.symbols@)),
        json_names(row.files@) == Ok::<Seq<Seq<char>>, Seq<char>>(texts(commit.files@)),
{
}

/// A stored commit reads as its columns say. It fails to read just where one of its
/// lists is no list of names or its tags are no object.
pub proof fn commits_are_read_by_column(row: CommitRow, r: Result<GitCommitInfo, String>)
    requires
        call_ensures(read_commit, (row,), r),
    ensures
        r is Ok <==> json_names(row.parent_sha@) is Ok && object_complaint(row.tags@) is None
            && json_names(row.symbols@) is Ok && json_names(row.files@) is Ok,
        r matches Ok(commit) ==> {
            &&& commit.git_sha@ == row.git_sha@
            &&& commit.author@ == row.author@
            &&& commit.subject@ == row.subject@
            &&& commit.message@ == row.message@
            &&& commit.diff@ == row.diff@
            &&& commit.tags@ == row.tags@
            &&& texts(commit.parent_sha@) == json_names(row.parent_sha@)->Ok_0
            &&& texts(commit.symbols@) == json_names(row.symbols@)->Ok_0
            &&& texts(commit.files@) == json_names(row.files@)->Ok_0
        },
{
}

/// A function row becomes the function of its columns, with the body that is held
/// under its hash, and nothing where none is held.
pub proof fn bodies_are_attached_by_hash(
    row: FunctionMetadata,
    contents: &NameMap<String>,
    f: FunctionInfo,
)
    requires
        contents.wf(),
        call_ensures(metadata_into_function, (row, contents), f),
    ensures
        f.name@ == row.name@,
        f.file_path@ == row.file_path@,
        f.git_file_hash@ == row.git_file_hash@,
        f.line_start == row.line_start,
        f.line_end == row.line_end,
        f.return_type@ == row.return_type@,
        f.parameters == row.parameters,
        f.calls == row.calls,
        f.types == row.types,
        row.body_hash is Some && contents@.contains_key((row.body_hash->0)@) ==> f.body@
            == contents@[(row.body_hash->0)@]@,
        row.body_hash is None || !contents@.contains_key((row.body_hash->0)@) ==> f.body@.len()
            == 0,
{
}

/// A type row becomes the type of its columns, with the definition that is held under
/// its hash, and nothing where none is held.
pub proof fn definitions_are_attached_by_hash(
    row: TypeMetadata,
    contents: &NameMap<String>,
    t: TypeInfo,
)
    requires
        contents.wf(),
        call_ensures(metadata_into_type, (row, contents), t),
    ensures
        t.name@ == row.name@,
        t.file_path@ == row.file_path@,
        t.git_file_hash@ == row.git_file_hash@,
        t.line_start == row.line_start,
        t.kind@ == row.kind@,
        t.size == row.size,
        t.members == row.members,
        t.types == row.types,
        row.definition_hash is Some && contents@.contains_key((row.definition_hash->0)@)
            ==> t.definition@ == contents@[(row.definition_hash->0)@]@,
        row.definition_hash is None || !contents@.contains_key((row.definition_hash->0)@)
            ==> t.definition@.len() == 0,
{
}

/// Where contents are not fetched the rows keep their columns, and show what stands
/// for the hash of the content in its place.
pub proof fn placeholders_stand_for_contents(
    row: FunctionMetadata,
    f: FunctionInfo,
    type_row: TypeMetadata,
    t: TypeInfo,
    body: String,
    definition: String,
)
    requires
        call_ensures(metadata_only_function, (row,), f),
        call_ensures(metadata_only_type, (type_row,), t),
        call_ensures(content_placeholder, (&row.body_hash,), body),
        call_ensures(content_placeholder, (&type_row.definition_hash,), definition),
    ensures
        f.name@ == row.name@ && t.name@ == type_row.name@,
        f.file_path@ == row.file_path@ && t.file_path@ == type_row.file_path@,
        f.git_file_hash@ == row.git_file_hash@ && t.git_file_hash@ == type_row.git_file_hash@,
        f.line_start == row.line_start && t.line_start == type_row.line_start,
        f.line_end == row.line_end && t.kind@ == type_row.kind@,
        f.return_type@ == row.return_type@ && t.size == type_row.size,
        f.parameters == row.parameters && t.members == type_row.members,
        f.calls == row.calls && f.types == row.types && t.types == type_row.types,
        f.body@ == body@ && t.definition@ == definition@,
        row.body_hash is None ==> body@.len() == 0,
        row.body_hash is Some ==> "[blake3:"@.is_prefix_of(body@) && body@.len() == 9 + 2
            * encode_utf8((row.body_hash->0)@).len() && body@.last() == ']',
{
    reveal_strlit("[blake3:");
    reveal_strlit("]");
    if row.body_hash is Some {
        let lead = "[blake3:"@;
        assert(lead =~= body@.take(lead.len() as int));
    }
}

/// A typedef is stored as a type of that kind with its own columns, and comes back
/// with them.
pub proof fn typedefs_are_stored_as_types(t: TypedefInfo, row: TypeInfo, back: TypedefInfo)
    requires
        call_ensures(typedef_into_type, (t,), row),
        call_ensures(typedef_from_type, (row,), back),
    ensures
        row.kind@ == "typedef"@,
        row.size is None && row.members@.len() == 0 && row.types is None,
        row.name@ == t.name@ && back.name@ == t.name@,
        row.file_path@ == t.file_path@ && back.file_path@ == t.file_path@,
        row.git_file_hash@ == t.git_file_hash@ && back.git_file_hash@ == t.git_file_hash@,
        row.line_start == t.line_start && back.line_start == t.line_start,
        row.definition@ == "// Underlying type: "@ + t.underlying_type@ + "\n"@ + t.definition@,
        !t.underlying_type@.contains('\n') ==> back.definition@ == t.definition@
            && back.underlying_type@ == t.underlying_type@,
{
    if !t.underlying_type@.contains('\n') {
        crate::stored::typedef_parts_read_back(t.underlying_type@, t.definition@);
    }
}

/// Definitions are preferred: functions of more than a hundred bytes over more than
/// one line, where there are any; everything where there are none.
pub proof fn definitions_are_preferred(
    candidates: Vec<FunctionInfo>,
    r: Vec<FunctionInfo>,
    f: FunctionInfo,
)
    requires
        call_ensures(prefer_definitions, (candidates,), r),
    ensures
        (exists|i: int| 0 <= i < candidates@.len() && spans_lines(#[trigger] candidates@[i])) ==> (
        r@.contains(f) <==> candidates@.contains(f) && spans_lines(f)),
        (forall|i: int| 0 <= i < candidates@.len() ==> !spans_lines(#[trigger] candidates@[i]))
            ==> r@ == candidates@,
{
    let wanted = |f: FunctionInfo| crate::stored::is_definition(f);
    lemma_filter_contains(candidates@, wanted, f);
    if exists|i: int| 0 <= i < candidates@.len() && spans_lines(#[trigger] candidates@[i]) {
        let i = choose|i: int| 0 <= i < candidates@.len() && spans_lines(#[trigger] candidates@[i]);
        assert(crate::stored::is_definition(candidates@[i]));
        assert(r@ == candidates@.filter(wanted));
    } else {
        assert forall|i: int| 0 <= i < candidates@.len() implies !crate::stored::is_definition(
            #[trigger] candidates@[i],
        ) by {
            assert(!spans_lines(candidates@[i]));
        }
    }
}

/// Whether a function has more than a hundred bytes and more than one line.
pub open spec fn spans_lines(f: FunctionInfo) -> bool {
    encode_utf8(f.body@).len() > 100 && f.line_start < f.line_end
}

proof fn lemma_kept_contains<T>(rows: Seq<T>, flags: Seq<bool>, row: T)
    requires
        flags.len() == rows.len(),
    ensures
        kept(rows, flags).contains(row) <==> is_flagged_row(rows, flags, row),
{
    kept_is_what_is_flagged(rows, flags);
    if kept(rows, flags).contains(row) {
        let k = choose|k: int| 0 <= k < kept(rows, flags).len() && kept(rows, flags)[k] == row;
        assert(is_flagged_row(rows, flags, kept(rows, flags)[k]));
    }
    if is_flagged_row(rows, flags, row) {
        let i = choose|i: int| 0 <= i < rows.len() && #[trigger] flags[i] && rows[i] == row;
        assert(kept(rows, flags).contains(rows[i]));
    }
}

/// Whether two sites stand at one place of one content and name the same target.
pub open spec fn at_one_place(a: DispatchSite, b: DispatchSite) -> bool {
    a.file_path@ == b.file_path@ && a.git_file_hash@ == b.git_file_hash@ && a.byte_start
        == b.byte_start && maybe_text(a.target) == maybe_text(b.target)
}

/// Of the sites at one place the last is kept.
pub proof fn the_last_site_of_a_place_is_kept(
    sites: Vec<DispatchSite>,
    r: Vec<DispatchSite>,
    site: DispatchSite,
)
    requires
        call_ensures(one_site_per_place, (sites,), r),
    ensures
        r@.contains(site) <==> exists|i: int|
            0 <= i < sites@.len() && #[trigger] sites@[i] == site && forall|j: int|
                i < j < sites@.len() ==> !at_one_place(#[trigger] sites@[j], site),
{
    let keys = sites@.map_values(|site: DispatchSite| site_key(site));
    let flags = last_of_key(keys);
    lemma_kept_contains(sites@, flags, site);
    if is_flagged_row(sites@, flags, site) {
        let i = choose|i: int| 0 <= i < sites@.len() && #[trigger] flags[i] && sites@[i] == site;
        assert forall|j: int| i < j < sites@.len() implies !at_one_place(
            #[trigger] sites@[j],
            site,
        ) by {
            assert(keys[j] != keys[i]);
        }
        assert(sites@[i] == site);
    }
    if exists|i: int|
        0 <= i < sites@.len() && #[trigger] sites@[i] == site && forall|j: int|
            i < j < sites@.len() ==> !at_one_place(#[trigger] sites@[j], site) {
        let i = choose|i: int|
            0 <= i < sites@.len() && #[trigger] sites@[i] == site && forall|j: int|
                i < j < sites@.len() ==> !at_one_place(#[trigger] sites@[j], site);
        assert forall|j: int| i < j < keys.len() implies keys[j] != keys[i] by {
            assert(!at_one_place(sites@[j], site));
        }
        assert(flags[i]);
    }
}

/// Whether two macros are of one name in one content of a file.
pub open spec fn one_macro(a: ObjectMacro, b: ObjectMacro) -> bool {
    a.name@ == b.name@ && a.file_path@ == b.file_path@ && a.git_file_hash@ == b.git_file_hash@
}

/// Of the definitions of a macro in one content of a file the last is kept.
pub proof fn the_last_macro_of_a_file_is_kept(
    macros: Vec<ObjectMacro>,
    r: Vec<ObjectMacro>,
    m: ObjectMacro,
)
    requires
        call_ensures(one_macro_per_definition, (macros,), r),
    ensures
        r@.contains(m) <==> exists|i: int|
            0 <= i < macros@.len() && #[trigger] macros@[i] == m && forall|j: int|
                i < j < macros@.len() ==> !one_macro(#[trigger] macros@[j], m),
{
    let keys = macros@.map_values(|m: ObjectMacro| macro_key(m));
    let flags = last_of_key(keys);
    lemma_kept_contains(macros@, flags, m);
    if is_flagged_row(macros@, flags, m) {
        let i = choose|i: int| 0 <= i < macros@.len() && #[trigger] flags[i] && macros@[i] == m;
        assert forall|j: int| i < j < macros@.len() implies !one_macro(#[trigger] macros@[j], m) by {
            assert(keys[j] != keys[i]);
        }
        assert(macros@[i] == m);
    }
    if exists|i: int|
        0 <= i < macros@.len() && #[trigger] macros@[i] == m && forall|j: int|
            i < j < macros@.len() ==> !one_macro(#[trigger] macros@[j], m) {
        let i = choose|i: int|
            0 <= i < macros@.len() && #[trigger] macros@[i] == m && forall|j: int|
                i < j < macros@.len() ==> !one_macro(#[trigger] macros@[j], m);
        assert forall|j: int| i < j < keys.len() implies keys[j] != keys[i] by {
            assert(!one_macro(macros@[j], m));
        }
        assert(flags[i]);
    }
}

/// Whether two types are of one name and kind in one content of a file.
pub open spec fn one_type(a: TypeInfo, b: TypeInfo) -> bool {
    a.name@ == b.name@ && a.kind@ == b.kind@ && a.file_path@ == b.file_path@ && a.git_file_hash@
        == b.git_file_hash@
}

/// Of the definitions of a type in one content of a file the first is kept.
pub proof fn the_first_type_of_a_file_is_kept(
    types: Vec<TypeInfo>,
    r: Vec<TypeInfo>,
    t: TypeInfo,
)
    requires
        call_ensures(one_type_per_key, (types,), r),
    ensures
        r@.contains(t) <==> exists|i: int|
            0 <= i < types@.len() && #[trigger] types@[i] == t && forall|j: int|
                0 <= j < i ==> !one_type(#[trigger] types@[j], t),
{
    let keys = types@.map_values(|t: TypeInfo| type_key(t));
    let flags = first_of_key(keys);
    lemma_kept_contains(types@, flags, t);
    if is_flagged_row(types@, flags, t) {
        let i = choose|i: int| 0 <= i < types@.len() && #[trigger] flags[i] && types@[i] == t;
        assert forall|j: int| 0 <= j < i implies !one_type(#[trigger] types@[j], t) by {
            assert(keys[j] != keys[i]);
        }
        assert(types@[i] == t);
    }
    if exists|i: int|
        0 <= i < types@.len() && #[trigger] types@[i] == t && forall|j: int|
            0 <= j < i ==> !one_type(#[trigger] types@[j], t) {
        let i = choose|i: int|
            0 <= i < types@.len() && #[trigger] types@[i] == t && forall|j: int|
                0 <= j < i ==> !one_type(#[trigger] types@[j], t);
        assert forall|j: int| 0 <= j < i implies keys[j] != keys[i] by {
            assert(!one_type(types@[j], t));
        }
        assert(flags[i]);
    }
}

/// A macro stands for what the first definition of its name says.
pub proof fn the_first_macro_of_a_name_wins(
    macros: Vec<(String, String)>,
    r: NameMap<String>,
    name: Seq<char>,
)
    requires
        call_ensures(all_macros, (macros,), r),
    ensures
        r@.contains_key(name) <==> exists|i: int|
            0 <= i < macros@.len() && (#[trigger] macros@[i]).0@ == name,
        r@.contains_key(name) ==> exists|i: int|
            0 <= i < macros@.len() && (#[trigger] macros@[i]).0@ == name && r@[name]@
                == macros@[i].1@ && forall|j: int|
                0 <= j < i ==> (#[trigger] macros@[j]).0@ != name,
{
    lemma_first_expansion(macros@, name);
}

proof fn lemma_first_expansion(macros: Seq<(String, String)>, name: Seq<char>)
    ensures
        first_expansion(macros, name) is None ==> forall|i: int|
            0 <= i < macros.len() ==> (#[trigger] macros[i]).0@ != name,
        first_expansion(macros, name) is Some ==> exists|i: int|
            0 <= i < macros.len() && (#[trigger] macros[i]).0@ == name && first_expansion(
                macros,
                name,
            ) == Some(macros[i].1@) && forall|j: int|
                0 <= j < i ==> (#[trigger] macros[j]).0@ != name,
    decreases macros.len(),
{
    if macros.len() > 0 {
        let init = macros.drop_last();
        lemma_first_expansion(init, name);
        if first_expansion(init, name) is Some {
            let i = choose|i: int|
                0 <= i < init.len() && (#[trigger] init[i]).0@ == name && first_expansion(
                    init,
                    name,
                ) == Some(init[i].1@) && forall|j: int|
                    0 <= j < i ==> (#[trigger] init[j]).0@ != name;
            assert(macros[i] == init[i]);
            assert forall|j: int| 0 <= j < i implies (#[trigger] macros[j]).0@ != name by {
                assert(init[j] == macros[j]);
            }
        } else {
            assert forall|j: int| 0 <= j < init.len() implies (#[trigger] macros[j]).0@ != name by {
                assert(init[j] == macros[j]);
            }
            assert(macros[macros.len() - 1] == macros.last());
        }
    }
}

/// By name, the last row of each name is found.
pub proof fn the_last_row_of_a_name_wins<T: Named>(rows: Seq<T>, name: Seq<char>)
    ensures
        last_named(rows, name) is None <==> forall|i: int|
            0 <= i < rows.len() ==> (#[trigger] rows[i]).named() != name,
        last_named(rows, name) is Some ==> exists|i: int|
            0 <= i < rows.len() && (#[trigger] rows[i]).named() == name && last_named(rows, name)
                == Some(rows[i]) && forall|j: int|
                i < j < rows.len() ==> (#[trigger] rows[j]).named() != name,
    decreases rows.len(),
{
    if rows.len() > 0 {
        let init = rows.drop_last();
        assert(rows[rows.len() - 1] == rows.last());
        if rows.last().named() != name {
            the_last_row_of_a_name_wins(init, name);
            if last_named(init, name) is Some {
                let i = choose|i: int|
                    0 <= i < init.len() && (#[trigger] init[i]).named() == name && last_named(
                        init,
                        name,
                    ) == Some(init[i]) && forall|j: int|
                        i < j < init.len() ==> (#[trigger] init[j]).named() != name;
                assert(rows[i] == init[i]);
                assert forall|j: int| i < j < rows.len() implies (#[trigger] rows[j]).named()
                    != name by {
                    if j < init.len() {
                        assert(init[j] == rows[j]);
                    }
                }
            } else {
                assert forall|j: int| 0 <= j < rows.len() implies (#[trigger] rows[j]).named()
                    != name by {
                    if j < init.len() {
                        assert(init[j] == rows[j]);
                    }
                }
            }
        }
    }
}

/// A function is found by the content it was read from: the first that was read from
/// it.
pub proof fn functions_are_found_by_content(
    functions: Vec<FunctionInfo>,
    git_file_hash: &str,
    r: Option<FunctionInfo>,
)
    requires
        call_ensures(find_by_name_file_and_hash, (functions, git_file_hash), r),
    ensures
        r is None <==> forall|i: int|
            0 <= i < functions@.len() ==> (#[trigger] functions@[i]).git_file_hash@
                != git_file_hash@,
        r is Some ==> exists|i: int|
            0 <= i < functions@.len() && Some(#[trigger] functions@[i]) == r
                && functions@[i].git_file_hash@ == git_file_hash@ && forall|j: int|
                0 <= j < i ==> (#[trigger] functions@[j]).git_file_hash@ != git_file_hash@,
{
    lemma_first_of_content(functions@, git_file_hash@);
}

proof fn lemma_first_of_content(functions: Seq<FunctionInfo>, hash: Seq<char>)
    ensures
        first_of_content(functions, hash) is None <==> forall|i: int|
            0 <= i < functions.len() ==> (#[trigger] functions[i]).git_file_hash@ != hash,
        first_of_content(functions, hash) is Some ==> exists|i: int|
            0 <= i < functions.len() && Some(#[trigger] functions[i]) == first_of_content(
                functions,
                hash,
            ) && functions[i].git_file_hash@ == hash && forall|j: int|
                0 <= j < i ==> (#[trigger] functions[j]).git_file_hash@ != hash,
    decreases functions.len(),
{
    if functions.len() > 0 {
        let rest = functions.skip(1);
        if functions[0].git_file_hash@ != hash {
            lemma_first_of_content(rest, hash);
            if first_of_content(rest, hash) is Some {
                let i = choose|i: int|
                    0 <= i < rest.len() && Some(#[trigger] rest[i]) == first_of_content(rest, hash)
                        && rest[i].git_file_hash@ == hash && forall|j: int|
                        0 <= j < i ==> (#[trigger] rest[j]).git_file_hash@ != hash;
                assert(functions[i + 1] == rest[i]);
                assert forall|j: int| 0 <= j < i + 1 implies (#[trigger] functions[j]).git_file_hash@
                    != hash by {
                    if j > 0 {
                        assert(rest[j - 1] == functions[j]);
                    }
                }
            } else {
                assert forall|j: int| 0 <= j < functions.len() implies (
                #[trigger] functions[j]).git_file_hash@ != hash by {
                    if j > 0 {
                        assert(rest[j - 1] == functions[j]);
                    }
                }
            }
        }
    }
}

/// A stored list of calls is read as the names it is a list of, and one that is no
/// list is an error; a stored list of types that is none says nothing.
pub proof fn lists_are_read_as_names(
    json: &str,
    calls: Result<Vec<String>, String>,
    types: Option<Vec<String>>,
)
    requires
        call_ensures(parse_call_list, (json,), calls),
        call_ensures(parse_type_list, (json,), types),
    ensures
        calls is Ok <==> json_names(json@) is Ok,
        types is Some <==> json_names(json@) is Ok,
        calls is Ok ==> texts((calls->Ok_0)@) == json_names(json@)->Ok_0,
        types is Some ==> texts((types->0)@) == json_names(json@)->Ok_0,
{
}

} // verus!
