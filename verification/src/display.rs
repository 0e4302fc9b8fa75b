//! What is shown of a function, a type or a typedef.
use vstd::prelude::*;
use crate::colors::{
    bold, bold_text, cyan, cyan_text, green, green_text, grey, grey_text, magenta, magenta_text,
    yellow, yellow_text,
};
use crate::text::{decimal, decimal_of, join, joined, lemma_texts_push, str_eq, texts};
use crate::types::{FieldInfo, FunctionInfo, ParameterInfo, TypeInfo, TypedefInfo};

verus! {

/// A line across, as wide as a terminal.
pub open spec fn rule(width: nat) -> Seq<char>
    decreases width,
{
    if width == 0 {
        Seq::empty()
    } else {
        rule((width - 1) as nat) + "─"@
    }
}

fn rule_string() -> (r: String)
    ensures
        r@ == rule(80),
{
    let mut out = String::new();
    let mut i: usize = 0;
    while i < 80
        invariant
            i <= 80,
            out@ == rule(i as nat),
        decreases 80 - i,
    {
        out.append("─");
        i += 1;
    }
    out
}

/// Source text under a title, between two lines.
pub open spec fn framed(title: Seq<char>, source: Seq<char>) -> Seq<char> {
    "\n"@ + title + ":\n"@ + grey_text(rule(80)) + "\n"@ + source + "\n"@ + grey_text(rule(80))
        + "\n"@
}

fn framed_string(title: &str, source: &str) -> (r: String)
    ensures
        r@ == framed(title@, source@),
{
    let line = grey(rule_string().as_str());
    let mut out = String::from_str("\n");
    out.append(title);
    out.append(":\n");
    out.append(line.as_str());
    out.append("\n");
    out.append(source);
    out.append("\n");
    out.append(line.as_str());
    out.append("\n");
    out
}

/// The parameters as they are declared.
pub open spec fn parameters_text(parameters: Seq<ParameterInfo>) -> Seq<char> {
    if parameters.len() == 0 {
        "void"@
    } else {
        joined(
            parameters.map_values(|p: ParameterInfo| p.declared_type@ + " "@ + p.name@),
            ", "@,
        )
    }
}

fn parameters_string(parameters: &Vec<ParameterInfo>) -> (r: String)
    ensures
        r@ == parameters_text(parameters@),
{
    if parameters.len() == 0 {
        return String::from_str("void");
    }
    let ghost form = |p: ParameterInfo| p.declared_type@ + " "@ + p.name@;
    let mut parts: Vec<String> = Vec::new();
    let mut i: usize = 0;
    while i < parameters.len()
        invariant
            i <= parameters@.len(),
            form == (|p: ParameterInfo| p.declared_type@ + " "@ + p.name@),
            texts(parts@) == parameters@.take(i as int).map_values(form),
        decreases parameters@.len() - i,
    {
        let mut part = parameters[i].declared_type.clone();
        part.append(" ");
        part.append(parameters[i].name.as_str());
        proof {
            lemma_texts_push(parts@, part);
            assert(part@ == form(parameters@[i as int]));
        }
        parts.push(part);
        i += 1;
        assert(texts(parts@) =~= parameters@.take(i as int).map_values(form));
    }
    assert(parameters@.take(i as int) =~= parameters@);
    join(&parts, ", ")
}

/// How a function is declared.
pub open spec fn declaration(f: FunctionInfo) -> Seq<char> {
    f.return_type@ + " "@ + f.name@ + "("@ + parameters_text(f.parameters@) + ")"@
}

/// What is shown of a function.
pub open spec fn function_text(f: FunctionInfo, show_body: bool) -> Seq<char> {
    "\n"@ + green_text(bold_text("=== Function Information ==="@)) + "\n"@ + "Name: "@
        + yellow_text(f.name@) + "\n"@ + "File: "@ + cyan_text(f.file_path@) + "\n"@ + "Hash: "@
        + grey_text(f.git_file_hash@) + "\n"@ + "Lines: "@ + decimal(f.line_start as nat) + " - "@
        + decimal(f.line_end as nat) + "\n"@ + "\nDeclaration: "@ + green_text(declaration(f))
        + "\n"@ + (if show_body && f.body@.len() > 0 {
        framed("Function Definition"@, f.body@)
    } else {
        Seq::empty()
    }) + "\n"@
}

/// Writes what is known of a function, with its body if that is wanted and known.
pub fn display_function_to_writer_with_options(
    func: &FunctionInfo,
    writer: &mut String,
    show_body: bool,
)
    ensures
        final(writer)@ == old(writer)@ + function_text(*func, show_body),
{
    let mut declared = func.return_type.clone();
    declared.append(" ");
    declared.append(func.name.as_str());
    declared.append("(");
    declared.append(parameters_string(&func.parameters).as_str());
    declared.append(")");
    let mut out = String::from_str("\n");
    out.append(green(bold("=== Function Information ===").as_str()).as_str());
    out.append("\n");
    out.append("Name: ");
    out.append(yellow(func.name.as_str()).as_str());
    out.append("\n");
    out.append("File: ");
    out.append(cyan(func.file_path.as_str()).as_str());
    out.append("\n");
    out.append("Hash: ");
    out.append(grey(func.git_file_hash.as_str()).as_str());
    out.append("\n");
    out.append("Lines: ");
    out.append(decimal_of(func.line_start as u64).as_str());
    out.append(" - ");
    out.append(decimal_of(func.line_end as u64).as_str());
    out.append("\n");
    out.append("\nDeclaration: ");
    out.append(green(declared.as_str()).as_str());
    out.append("\n");
    let mut body = String::new();
    if show_body && !func.body.as_str().is_empty() {
        body = framed_string("Function Definition", func.body.as_str());
    }
    out.append(body.as_str());
    out.append("\n");
    writer.append(out.as_str());
}

/// Writes what is known of a function.
pub fn display_function_to_writer(func: &FunctionInfo, writer: &mut String)
    ensures
        final(writer)@ == old(writer)@ + function_text(*func, true),
{
    display_function_to_writer_with_options(func, writer, true);
}

/// The line of a field.
pub open spec fn field_line(field: FieldInfo) -> Seq<char> {
    "  - "@ + magenta_text(field.declared_type@) + " "@ + yellow_text(field.name@) + grey_text(
        match field.offset {
            Some(offset) => " (offset: "@ + decimal(offset as nat) + ")"@,
            None => Seq::empty(),
        },
    ) + "\n"@
}

pub open spec fn field_lines(fields: Seq<FieldInfo>) -> Seq<char>
    decreases fields.len(),
{
    if fields.len() == 0 {
        Seq::empty()
    } else {
        field_lines(fields.drop_last()) + field_line(fields.last())
    }
}

/// The fields of a type. That there are none is said, but of an enum, which has
/// no fields to have.
pub open spec fn fields_text(t: TypeInfo) -> Seq<char> {
    if t.members@.len() > 0 {
        "\nFields:\n"@ + field_lines(t.members@)
    } else if t.kind@ != "enum"@ {
        "\nFields: (none)\n"@
    } else {
        Seq::empty()
    }
}

fn field_string(field: &FieldInfo) -> (r: String)
    ensures
        r@ == field_line(*field),
{
    let mut offset_text = String::new();
    if let Some(offset) = field.offset {
        offset_text = String::from_str(" (offset: ");
        offset_text.append(decimal_of(offset).as_str());
        offset_text.append(")");
    }
    let mut out = String::from_str("  - ");
    out.append(magenta(field.declared_type.as_str()).as_str());
    out.append(" ");
    out.append(yellow(field.name.as_str()).as_str());
    out.append(grey(offset_text.as_str()).as_str());
    out.append("\n");
    out
}

fn fields_string(t: &TypeInfo) -> (r: String)
    ensures
        r@ == fields_text(*t),
{
    if t.members.len() > 0 {
        let mut out = String::from_str("\nFields:\n");
        let mut lines = String::new();
        let mut i: usize = 0;
        assert(t.members@.take(0) =~= Seq::empty());
        while i < t.members.len()
            invariant
                i <= t.members@.len(),
                lines@ == field_lines(t.members@.take(i as int)),
            decreases t.members@.len() - i,
        {
            proof {
                assert(t.members@.take(i + 1).drop_last() =~= t.members@.take(i as int));
                assert(t.members@.take(i + 1).last() == t.members@[i as int]);
            }
            lines.append(field_string(&t.members[i]).as_str());
            i += 1;
        }
        assert(t.members@.take(i as int) =~= t.members@);
        out.append(lines.as_str());
        out
    } else if !str_eq(t.kind.as_str(), "enum") {
        String::from_str("\nFields: (none)\n")
    } else {
        String::new()
    }
}

/// What is shown of a type.
pub open spec fn type_text(t: TypeInfo) -> Seq<char> {
    "\n"@ + green_text(bold_text("=== Type Information ==="@)) + "\n"@ + "Name: "@ + magenta_text(
        t.kind@,
    ) + " "@ + yellow_text(t.name@) + "\n"@ + "File: "@ + cyan_text(t.file_path@) + "\n"@
        + "Hash: "@ + grey_text(t.git_file_hash@) + "\n"@ + "Line: "@ + decimal(
        t.line_start as nat,
    ) + "\n"@ + (match t.size {
        Some(size) => "Size: "@ + decimal(size as nat) + " bytes\n"@,
        None => Seq::empty(),
    }) + fields_text(t) + (if t.definition@.len() > 0 {
        framed("Type Definition"@, t.definition@)
    } else {
        Seq::empty()
    }) + "\n"@
}

/// Writes what is known of a type.
pub fn display_type_to_writer(type_info: &TypeInfo, writer: &mut String)
    ensures
        final(writer)@ == old(writer)@ + type_text(*type_info),
{
    let mut out = String::from_str("\n");
    out.append(green(bold("=== Type Information ===").as_str()).as_str());
    out.append("\n");
    out.append("Name: ");
    out.append(magenta(type_info.kind.as_str()).as_str());
    out.append(" ");
    out.append(yellow(type_info.name.as_str()).as_str());
    out.append("\n");
    out.append("File: ");
    out.append(cyan(type_info.file_path.as_str()).as_str());
    out.append("\n");
    out.append("Hash: ");
    out.append(grey(type_info.git_file_hash.as_str()).as_str());
    out.append("\n");
    out.append("Line: ");
    out.append(decimal_of(type_info.line_start as u64).as_str());
    out.append("\n");
    let mut size_text = String::new();
    if let Some(size) = type_info.size {
        size_text = String::from_str("Size: ");
        size_text.append(decimal_of(size).as_str());
        size_text.append(" bytes\n");
    }
    out.append(size_text.as_str());
    out.append(fields_string(type_info).as_str());
    let mut definition = String::new();
    if !type_info.definition.as_str().is_empty() {
        definition = framed_string("Type Definition", type_info.definition.as_str());
    }
    out.append(definition.as_str());
    out.append("\n");
    writer.append(out.as_str());
}

/// What is shown of a typedef.
pub open spec fn typedef_text(t: TypedefInfo) -> Seq<char> {
    "\n"@ + green_text(bold_text("=== Typedef Information ==="@)) + "\n"@ + "Name: "@ + yellow_text(
        t.name@,
    ) + "\n"@ + "File: "@ + cyan_text(t.file_path@) + "\n"@ + "Hash: "@ + grey_text(
        t.git_file_hash@,
    ) + "\n"@ + "Line: "@ + decimal(t.line_start as nat) + "\n"@ + "Underlying Type: "@
        + magenta_text(t.underlying_type@) + "\n"@ + (if t.definition@.len() > 0 {
        framed("Typedef Definition"@, t.definition@)
    } else {
        Seq::empty()
    }) + "\n"@
}

/// Writes what is known of a typedef.
pub fn display_typedef_to_writer(typedef_info: &TypedefInfo, writer: &mut String)
    ensures
        final(writer)@ == old(writer)@ + typedef_text(*typedef_info),
{
    let mut out = String::from_str("\n");
    out.append(green(bold("=== Typedef Information ===").as_str()).as_str());
    out.append("\n");
    out.append("Name: ");
    out.append(yellow(typedef_info.name.as_str()).as_str());
    out.append("\n");
    out.append("File: ");
    out.append(cyan(typedef_info.file_path.as_str()).as_str());
    out.append("\n");
    out.append("Hash: ");
    out.append(grey(typedef_info.git_file_hash.as_str()).as_str());
    out.append("\n");
    out.append("Line: ");
    out.append(decimal_of(typedef_info.line_start as u64).as_str());
    out.append("\n");
    out.append("Underlying Type: ");
    out.append(magenta(typedef_info.underlying_type.as_str()).as_str());
    out.append("\n");
    let mut definition = String::new();
    if !typedef_info.definition.as_str().is_empty() {
        definition = framed_string("Typedef Definition", typedef_info.definition.as_str());
    }
    out.append(definition.as_str());
    out.append("\n");
    writer.append(out.as_str());
}

} // verus!
