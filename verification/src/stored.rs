//! Rows as they are stored, and what is made of them when they are read.
use vstd::prelude::*;
use vstd::string::StringSliceAdditionalSpecFns;
use vstd::utf8::{encode_utf8, encode_utf8_decode_utf8, is_char_boundary};
use crate::hexadecimal::{hex_encode, hex_tells_bytes_apart, hex_text};
use crate::keyed::{first_flags, first_of_key, keep_rows, kept, kept_is_a_filter, RowKey};
use crate::names::{push_under, NameMap, NameSet};
use crate::sql::{both, both_filter, equals, equals_filter};
use crate::text::{
    chars_of, count_bytes, first_index, has_prefix, lemma_first_piece, lemma_one_piece, pieces,
    slice_of, starts_with, texts,
};
use crate::types::{FieldInfo, FunctionInfo, Named, ParameterInfo, TypeInfo, TypedefInfo};

verus! {

/// The size beyond which a body or a definition is cut, in bytes.
pub const MAX_CONTENT_SIZE: usize = 10485760;

/// Cuts a text that is too long to store. A text can be cut only between two
/// characters.
pub fn cut_content(content: String) -> (r: String)
    requires
        encode_utf8(content@).len() > MAX_CONTENT_SIZE ==> is_char_boundary(
            encode_utf8(content@),
            MAX_CONTENT_SIZE as int,
        ),
    ensures
        encode_utf8(r@) == (if encode_utf8(content@).len() > MAX_CONTENT_SIZE {
            encode_utf8(content@).take(MAX_CONTENT_SIZE as int)
        } else {
            encode_utf8(content@)
        }),
        encode_utf8(content@).len() <= MAX_CONTENT_SIZE ==> r@ == content@,
{
    let s = content.as_str();
    if count_bytes(s) > MAX_CONTENT_SIZE {
        let (head, _) = s.split_at(MAX_CONTENT_SIZE);
        assert(encode_utf8(head@) =~= encode_utf8(content@).take(MAX_CONTENT_SIZE as int));
        String::from_str(head)
    } else {
        content
    }
}

/// A function row, whose body is held elsewhere under its hash.
pub struct FunctionMetadata {
    pub name: String,
    pub file_path: String,
    pub git_file_hash: String,
    pub line_start: u32,
    pub line_end: u32,
    pub return_type: String,
    pub parameters: Vec<ParameterInfo>,
    pub body_hash: Option<String>,
    pub calls: Option<Vec<String>>,
    pub types: Option<Vec<String>>,
}

/// A type row, whose definition is held elsewhere under its hash.
pub struct TypeMetadata {
    pub name: String,
    pub file_path: String,
    pub git_file_hash: String,
    pub line_start: u32,
    pub kind: String,
    pub size: Option<u64>,
    pub members: Vec<FieldInfo>,
    pub definition_hash: Option<String>,
    pub types: Option<Vec<String>>,
}

/// The content under a hash: nothing where there is no hash, or nothing under
/// it.
pub open spec fn content_under(
    hash: Option<String>,
    contents: Map<Seq<char>, String>,
) -> Seq<char> {
    match hash {
        Some(hash) => if contents.contains_key(hash@) {
            contents[hash@]@
        } else {
            Seq::empty()
        },
        None => Seq::empty(),
    }
}

fn find_content(hash: &Option<String>, contents: &NameMap<String>) -> (r: String)
    requires
        contents.wf(),
    ensures
        r@ == content_under(*hash, contents@),
{
    match hash {
        Some(hash) => match contents.get(hash.as_str()) {
            Some(content) => content.clone(),
            None => String::new(),
        },
        None => String::new(),
    }
}

/// Attaches the body to one row.
pub fn metadata_into_function(row: FunctionMetadata, contents: &NameMap<String>) -> (r:
    FunctionInfo)
    requires
        contents.wf(),
    ensures
        r.body@ == content_under(row.body_hash, contents@),
        r == (FunctionInfo {
            name: row.name,
            file_path: row.file_path,
            git_file_hash: row.git_file_hash,
            line_start: row.line_start,
            line_end: row.line_end,
            return_type: row.return_type,
            parameters: row.parameters,
            body: r.body,
            calls: row.calls,
            types: row.types,
        }),
{
    let body = find_content(&row.body_hash, contents);
    FunctionInfo {
        name: row.name,
        file_path: row.file_path,
        git_file_hash: row.git_file_hash,
        line_start: row.line_start,
        line_end: row.line_end,
        return_type: row.return_type,
        parameters: row.parameters,
        body,
        calls: row.calls,
        types: row.types,
    }
}

/// Attaches the definition to one row.
pub fn metadata_into_type(row: TypeMetadata, contents: &NameMap<String>) -> (r: TypeInfo)
    requires
        contents.wf(),
    ensures
        r.definition@ == content_under(row.definition_hash, contents@),
        r == (TypeInfo {
            name: row.name,
            file_path: row.file_path,
            git_file_hash: row.git_file_hash,
            line_start: row.line_start,
            kind: row.kind,
            size: row.size,
            members: row.members,
            definition: r.definition,
            types: row.types,
        }),
{
    let definition = find_content(&row.definition_hash, contents);
    TypeInfo {
        name: row.name,
        file_path: row.file_path,
        git_file_hash: row.git_file_hash,
        line_start: row.line_start,
        kind: row.kind,
        size: row.size,
        members: row.members,
        definition,
        types: row.types,
    }
}

/// What stands in for content that is not fetched.
pub open spec fn placeholder(hash: Option<String>) -> Seq<char> {
    match hash {
        Some(hash) => "[blake3:"@ + hex_text(encode_utf8(hash@)) + "]"@,
        None => Seq::empty(),
    }
}

/// What stands in for content that is not fetched: its hash.
pub fn content_placeholder(hash: &Option<String>) -> (r: String)
    ensures
        r@ == placeholder(*hash),
{
    match hash {
        Some(hash) => {
            let mut out = String::from_str("[blake3:");
            out.append(hex_encode(hash.as_str().as_bytes()).as_str());
            out.append("]");
            out
        },
        None => String::new(),
    }
}

/// Contents with different hashes have different placeholders.
pub proof fn placeholders_tell_contents_apart(a: Option<String>, b: Option<String>)
    requires
        placeholder(a) == placeholder(b),
    ensures
        match (a, b) {
            (Some(a), Some(b)) => a@ == b@,
            (None, None) => true,
            _ => false,
        },
{
    reveal_strlit("[blake3:");
    reveal_strlit("]");
    match (a, b) {
        (Some(a), Some(b)) => {
            let left = hex_text(encode_utf8(a@));
            let right = hex_text(encode_utf8(b@));
            let n = placeholder(Some(a)).len();
            assert(left =~= placeholder(Some(a)).subrange(8, n - 1));
            assert(right =~= placeholder(Some(b)).subrange(8, n - 1));
            hex_tells_bytes_apart(encode_utf8(a@), encode_utf8(b@));
            encode_utf8_decode_utf8(a@);
            encode_utf8_decode_utf8(b@);
        },
        _ => {
            assert(a is Some ==> placeholder(a).len() > 0);
            assert(b is Some ==> placeholder(b).len() > 0);
        },
    }
}

/// A function row whose body is not fetched.
pub fn metadata_only_function(row: FunctionMetadata) -> (r: FunctionInfo)
    ensures
        r.body@ == placeholder(row.body_hash),
        r == (FunctionInfo {
            name: row.name,
            file_path: row.file_path,
            git_file_hash: row.git_file_hash,
            line_start: row.line_start,
            line_end: row.line_end,
            return_type: row.return_type,
            parameters: row.parameters,
            body: r.body,
            calls: row.calls,
            types: row.types,
        }),
{
    let body = content_placeholder(&row.body_hash);
    FunctionInfo {
        name: row.name,
        file_path: row.file_path,
        git_file_hash: row.git_file_hash,
        line_start: row.line_start,
        line_end: row.line_end,
        return_type: row.return_type,
        parameters: row.parameters,
        body,
        calls: row.calls,
        types: row.types,
    }
}

/// A type row whose definition is not fetched.
pub fn metadata_only_type(row: TypeMetadata) -> (r: TypeInfo)
    ensures
        r.definition@ == placeholder(row.definition_hash),
        r == (TypeInfo {
            name: row.name,
            file_path: row.file_path,
            git_file_hash: row.git_file_hash,
            line_start: row.line_start,
            kind: row.kind,
            size: row.size,
            members: row.members,
            definition: r.definition,
            types: row.types,
        }),
{
    let definition = content_placeholder(&row.definition_hash);
    TypeInfo {
        name: row.name,
        file_path: row.file_path,
        git_file_hash: row.git_file_hash,
        line_start: row.line_start,
        kind: row.kind,
        size: row.size,
        members: row.members,
        definition,
        types: row.types,
    }
}

/// The hashes that some rows refer to, each once.
pub fn referenced_hashes(hashes: &Vec<Option<String>>) -> (r: NameSet)
    ensures
        r.wf(),
        forall|hash: Seq<char>| #[trigger]
            r@.contains(hash) <==> exists|i: int|
                0 <= i < hashes@.len() && (#[trigger] hashes@[i] matches Some(h) && h@ == hash),
{
    let mut out = NameSet::new();
    let mut i: usize = 0;
    while i < hashes.len()
        invariant
            i <= hashes@.len(),
            out.wf(),
            forall|hash: Seq<char>| #[trigger]
                out@.contains(hash) <==> exists|j: int|
                    0 <= j < i && (#[trigger] hashes@[j] matches Some(h) && h@ == hash),
        decreases hashes@.len() - i,
    {
        let ghost held = out@;
        if let Some(hash) = &hashes[i] {
            let _ = out.insert(hash.as_str());
        }
        proof {
            assert forall|hash: Seq<char>| #[trigger]
                out@.contains(hash) <==> exists|j: int|
                    0 <= j < i + 1 && (#[trigger] hashes@[j] matches Some(h) && h@ == hash) by {
                if held.contains(hash) {
                    let j = choose|j: int|
                        0 <= j < i && (#[trigger] hashes@[j] matches Some(h) && h@ == hash);
                    assert(hashes@[j] matches Some(h) && h@ == hash);
                } else if out@.contains(hash) {
                    assert(hashes@[i as int] matches Some(h) && h@ == hash);
                }
            }
        }
        i += 1;
    }
    out
}

/// Whether a function row is more than a declaration: a body of some size that
/// spans lines.
pub open spec fn is_definition(f: FunctionInfo) -> bool {
    encode_utf8(f.body@).len() > 100 && f.line_end > f.line_start
}

/// Prefers definitions over declarations: the definitions where there are any,
/// else what there is.
pub fn prefer_definitions(candidates: Vec<FunctionInfo>) -> (r: Vec<FunctionInfo>)
    ensures
        r@ == (if exists|i: int| 0 <= i < candidates@.len() && is_definition(#[trigger] candidates@[i]) {
            candidates@.filter(|f: FunctionInfo| is_definition(f))
        } else {
            candidates@
        }),
{
    let mut flags: Vec<bool> = Vec::new();
    let mut any = false;
    let mut i: usize = 0;
    while i < candidates.len()
        invariant
            i <= candidates@.len(),
            flags@.len() == i,
            forall|j: int| 0 <= j < i ==> #[trigger] flags@[j] == is_definition(candidates@[j]),
            any == exists|j: int| 0 <= j < i && is_definition(#[trigger] candidates@[j]),
        decreases candidates@.len() - i,
    {
        let f = &candidates[i];
        assert(f == candidates@[i as int]);
        let defined = count_bytes(f.body.as_str()) > 100 && f.line_end > f.line_start;
        flags.push(defined);
        any = any || defined;
        i += 1;
    }
    if any {
        proof {
            kept_is_a_filter(candidates@, flags@, |f: FunctionInfo| is_definition(f));
        }
        keep_rows(candidates, &flags)
    } else {
        candidates
    }
}

/// Rows by name, each name with every row that carries it: same-named
/// definitions in different files are distinct functions.
pub fn group_by_name<T: Named>(rows: Vec<T>) -> (grouped: NameMap<Vec<T>>)
    ensures
        grouped.wf(),
        forall|name: Seq<char>| #[trigger]
            grouped@.contains_key(name) <==> rows@.filter(|row: T| row.named() == name).len() > 0,
        forall|name: Seq<char>| #[trigger]
            grouped@.contains_key(name) ==> grouped@[name]@ == rows@.filter(
                |row: T| row.named() == name,
            ),
{
    let ghost all = rows@;
    let mut grouped: NameMap<Vec<T>> = NameMap::new();
    proof {
        reveal(Seq::filter);
    }
    for row in it: rows
        invariant
            it.seq() == all,
            grouped.wf(),
            forall|name: Seq<char>| #[trigger]
                grouped@.contains_key(name) <==> all.take(it.index()).filter(
                    |row: T| row.named() == name,
                ).len() > 0,
            forall|name: Seq<char>| #[trigger]
                grouped@.contains_key(name) ==> grouped@[name]@ == all.take(it.index()).filter(
                    |row: T| row.named() == name,
                ),
    {
        let ghost next = all.take(it.index() + 1);
        let ghost held = grouped@;
        let ghost s = row;
        proof {
            reveal(Seq::filter);
            assert(next.drop_last() =~= all.take(it.index()));
            assert(next.last() == row);
        }
        let name = String::from_str(row.name());
        push_under(&mut grouped, name.as_str(), row);
        proof {
            assert forall|name: Seq<char>| #[trigger] grouped@.contains_key(name) implies grouped@[name]@
                == next.filter(|row: T| row.named() == name) by {
                if name == s.named() {
                    if !held.contains_key(name) {
                        assert(next.drop_last().filter(|row: T| row.named() == name).len() == 0);
                        assert(next.filter(|row: T| row.named() == name) =~= seq![s]);
                    }
                } else {
                    assert(held.contains_key(name));
                }
            }
        }
    }
    assert(all.take(all.len() as int) =~= all);
    grouped
}

/// What makes two type rows one in a merge.
pub open spec fn type_key(t: TypeInfo) -> (Seq<char>, Seq<char>, Seq<char>, Seq<char>) {
    (t.name@, t.kind@, t.file_path@, t.git_file_hash@)
}

/// Keeps one row per merge key, the first: a batch carrying two rows for one key
/// is rejected whole, and a file can define the same type twice.
pub fn one_type_per_key(types: Vec<TypeInfo>) -> (r: Vec<TypeInfo>)
    ensures
        r@ == kept(types@, first_of_key(types@.map_values(|t: TypeInfo| type_key(t)))),
{
    let ghost keys = types@.map_values(|t: TypeInfo| type_key(t));
    let mut codes: Vec<String> = Vec::new();
    let mut i: usize = 0;
    while i < types.len()
        invariant
            i <= types@.len(),
            codes@.len() == i,
            keys == types@.map_values(|t: TypeInfo| type_key(t)),
            forall|j: int|
                0 <= j < i ==> #[trigger] codes@[j]@ == <(
                    String,
                    String,
                    String,
                    String,
                ) as RowKey>::code(keys[j]),
        decreases types@.len() - i,
    {
        let t = &types[i];
        let key = (t.name.clone(), t.kind.clone(), t.file_path.clone(), t.git_file_hash.clone());
        assert(key.deep_view() == keys[i as int]);
        codes.push(key.encode());
        i += 1;
    }
    let flags = first_flags(&codes);
    proof {
        let texts = texts(codes@);
        assert forall|a: int, b: int| 0 <= a < texts.len() && 0 <= b < texts.len() implies (
        #[trigger] texts[a] == #[trigger] texts[b] <==> keys[a] == keys[b]) by {
            assert(codes@[a]@ == texts[a]);
            assert(codes@[b]@ == texts[b]);
            <(String, String, String, String) as RowKey>::codes_differ(keys[a], keys[b]);
        }
        assert forall|k: int| 0 <= k < texts.len() implies first_of_key(texts)[k] == first_of_key(
            keys,
        )[k] by {
            if first_of_key(texts)[k] {
                assert forall|j: int| 0 <= j < k implies keys[j] != keys[k] by {
                    assert(texts[j] != texts[k]);
                }
            } else {
                let j = choose|j: int| 0 <= j < k && texts[j] == texts[k];
                assert(keys[j] == keys[k]);
            }
        }
        assert(first_of_key(texts) =~= first_of_key(keys));
    }
    keep_rows(types, &flags)
}

/// A typedef's definition as it is stored, with the underlying type in front.
pub open spec fn embedded(underlying: Seq<char>, definition: Seq<char>) -> Seq<char> {
    "// Underlying type: "@ + underlying + "\n"@ + definition
}

/// The underlying type and the definition that a stored definition holds.
pub open spec fn embedded_parts(stored: Seq<char>) -> (Seq<char>, Seq<char>) {
    let lines = pieces(stored, '\n');
    if has_prefix(stored, "// Underlying type: "@) && lines.len() > 1 {
        (lines[0].skip(20), stored.skip(lines[0].len() as int + 1))
    } else {
        ("unknown"@, stored)
    }
}

/// What was stored for a typedef is read back, for an underlying type on one
/// line.
pub proof fn typedef_parts_read_back(underlying: Seq<char>, definition: Seq<char>)
    requires
        !underlying.contains('\n'),
    ensures
        embedded_parts(embedded(underlying, definition)) == (underlying, definition),
{
    reveal_strlit("// Underlying type: ");
    reveal_strlit("\n");
    let lead = "// Underlying type: "@;
    let stored = embedded(underlying, definition);
    let first = lead + underlying;
    assert(!first.contains('\n')) by {
        assert forall|i: int| 0 <= i < first.len() implies first[i] != '\n' by {
            if i < lead.len() {
                assert(lead[i] != '\n');
            } else {
                assert(first[i] == underlying[i - lead.len()]);
            }
        }
    }
    assert("\n"@ =~= seq!['\n']);
    assert(stored =~= first + seq!['\n'] + definition);
    lemma_first_piece(first, '\n', definition);
    assert(stored.take(lead.len() as int) =~= lead);
    assert(first.skip(20) =~= underlying);
    assert(stored.skip(first.len() as int + 1) =~= definition);
}

/// A typedef as the type row it is stored as.
pub fn typedef_into_type(typedef: TypedefInfo) -> (r: TypeInfo)
    ensures
        r.name == typedef.name,
        r.file_path == typedef.file_path,
        r.git_file_hash == typedef.git_file_hash,
        r.line_start == typedef.line_start,
        r.kind@ == "typedef"@,
        r.size is None,
        r.members@.len() == 0,
        r.definition@ == embedded(typedef.underlying_type@, typedef.definition@),
        r.types is None,
{
    let mut definition = String::from_str("// Underlying type: ");
    definition.append(typedef.underlying_type.as_str());
    definition.append("\n");
    definition.append(typedef.definition.as_str());
    TypeInfo {
        name: typedef.name,
        file_path: typedef.file_path,
        git_file_hash: typedef.git_file_hash,
        line_start: typedef.line_start,
        kind: String::from_str("typedef"),
        size: None,
        members: Vec::new(),
        definition,
        types: None,
    }
}

/// The typedef that a type row stands for.
pub fn typedef_from_type(row: TypeInfo) -> (r: TypedefInfo)
    ensures
        r.name == row.name,
        r.file_path == row.file_path,
        r.git_file_hash == row.git_file_hash,
        r.line_start == row.line_start,
        (r.underlying_type@, r.definition@) == embedded_parts(row.definition@),
{
    let (underlying_type, definition) = split_definition(row.definition.as_str());
    TypedefInfo {
        name: row.name,
        file_path: row.file_path,
        git_file_hash: row.git_file_hash,
        line_start: row.line_start,
        underlying_type,
        definition,
    }
}

/// The underlying type and the definition that a stored definition holds.
pub fn split_definition(stored: &str) -> (r: (String, String))
    ensures
        (r.0@, r.1@) == embedded_parts(stored@),
{
    let chars = chars_of(stored);
    proof {
        reveal_strlit("// Underlying type: ");
    }
    if starts_with(stored, "// Underlying type: ") {
        match first_index(&chars, '\n') {
            Some(at) => {
                proof {
                    let lead = "// Underlying type: "@;
                    let first = stored@.take(at as int);
                    let rest = stored@.skip(at + 1);
                    lemma_first_piece(first, '\n', rest);
                    assert(stored@ =~= first + seq!['\n'] + rest);
                    if at < 20 {
                        assert(stored@.take(20)[at as int] == '\n');
                        assert(lead[at as int] == '\n');
                    }
                    assert(stored@.subrange(20, at as int) =~= first.skip(20));
                    assert(stored@.subrange(at + 1, stored@.len() as int) =~= rest);
                }
                let n: usize = chars.len();
                return (slice_of(&chars, 20, at), slice_of(&chars, at + 1, n));
            },
            None => {
                proof {
                    lemma_one_piece(stored@, '\n');
                }
            },
        }
    }
    (String::from_str("unknown"), String::from_str(stored))
}

/// A file that has been read, by what it held.
pub struct ProcessedFileRecord {
    pub file: String,
    pub git_sha: Option<String>,
    pub git_file_sha: String,
    /// The extractor that read it, absent when the row predates the column.
    pub extractor_version: Option<u32>,
}

/// A processed file as it is exported.
pub struct ProcessedFileRecordJson {
    pub file: String,
    pub git_sha: Option<String>,
    pub git_file_sha: String,
}

impl From<ProcessedFileRecord> for ProcessedFileRecordJson {
    fn from(record: ProcessedFileRecord) -> (r: Self) {
        ProcessedFileRecordJson {
            file: record.file,
            git_sha: record.git_sha,
            git_file_sha: record.git_file_sha,
        }
    }
}

impl vstd::std_specs::convert::FromSpecImpl<ProcessedFileRecord> for ProcessedFileRecordJson {
    open spec fn obeys_from_spec() -> bool {
        true
    }

    open spec fn from_spec(record: ProcessedFileRecord) -> Self {
        ProcessedFileRecordJson {
            file: record.file,
            git_sha: record.git_sha,
            git_file_sha: record.git_file_sha,
        }
    }
}

/// The files processed at a commit, or those processed outside one. The column
/// holds the commit as text.
pub open spec fn of_commit(git_sha: Option<&str>) -> Seq<char> {
    match git_sha {
        Some(sha) => equals("git_sha"@, sha@),
        None => "git_sha IS NULL"@,
    }
}

/// Selects the processed files of a commit, or those outside one.
pub fn of_commit_filter(git_sha: Option<&str>) -> (r: String)
    ensures
        r@ == of_commit(git_sha),
{
    match git_sha {
        Some(sha) => equals_filter("git_sha", sha),
        None => String::from_str("git_sha IS NULL"),
    }
}

/// Selects one processed file, for removal.
pub fn processed_file_filter(file: &str, git_sha: Option<&str>, git_file_sha: &str) -> (r: String)
    ensures
        r@ == both(
            both(equals("file"@, file@), of_commit(git_sha)),
            equals("git_file_sha"@, git_file_sha@),
        ),
{
    both_filter(
        both_filter(
            equals_filter("file", file).as_str(),
            of_commit_filter(git_sha).as_str(),
        ).as_str(),
        equals_filter("git_file_sha", git_file_sha).as_str(),
    )
}

/// Selects the processed files of one content.
pub fn of_content_filter(git_file_sha: &str) -> (r: String)
    ensures
        r@ == "git_file_sha = '"@ + git_file_sha@ + "'"@,
{
    let mut out = String::from_str("git_file_sha = '");
    out.append(git_file_sha);
    out.append("'");
    out
}

} // verus!
