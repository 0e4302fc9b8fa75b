//! The help: the commands there are, and how they are typed.
//!
//! A help line is written as it is shown, with the names of commands in braces,
//! and a heading begins with `# `.
use vstd::prelude::*;
use crate::colors::{
    bold, bold_text, bright_blue, bright_blue_text, cyan, cyan_text, green, green_text, grey,
    grey_text, red, red_text, yellow, yellow_text,
};
use crate::text::{
    chars_of, first_index, has_prefix, lemma_first_piece, lemma_one_piece, pieces, slice_of,
    split_on, starts_with, texts,
};

verus! {

/// What follows an opening brace: the name up to the closing one in yellow, then
/// the rest.
pub open spec fn marked(part: Seq<char>) -> Seq<char> {
    let split = pieces(part, '}');
    if split.len() > 1 {
        yellow_text(split[0]) + part.skip(split[0].len() as int + 1)
    } else {
        part
    }
}

pub open spec fn marked_all(parts: Seq<Seq<char>>) -> Seq<char>
    decreases parts.len(),
{
    if parts.len() <= 1 {
        if parts.len() == 0 {
            Seq::empty()
        } else {
            parts[0]
        }
    } else {
        marked_all(parts.drop_last()) + marked(parts.last())
    }
}

/// A help line as it is shown.
pub open spec fn shown_line(line: Seq<char>) -> Seq<char> {
    if has_prefix(line, "# "@) {
        cyan_text(bold_text(line.skip(2)))
    } else {
        marked_all(pieces(line, '{'))
    }
}

/// Some help lines as they are shown.
pub open spec fn shown_lines(lines: Seq<Seq<char>>) -> Seq<char>
    decreases lines.len(),
{
    if lines.len() == 0 {
        Seq::empty()
    } else {
        shown_lines(lines.drop_last()) + shown_line(lines.last()) + "\n"@
    }
}

fn marked_string(part: &str) -> (r: String)
    ensures
        r@ == marked(part@),
{
    let chars = chars_of(part);
    let n: usize = chars.len();
    match first_index(&chars, '}') {
        Some(at) => {
            proof {
                let name = part@.take(at as int);
                let rest = part@.skip(at + 1);
                lemma_first_piece(name, '}', rest);
                assert(part@ =~= name + seq!['}'] + rest);
                assert(part@.subrange(0, at as int) =~= name);
                assert(part@.subrange(at + 1, n as int) =~= rest);
            }
            let mut out = yellow(slice_of(&chars, 0, at).as_str());
            out.append(slice_of(&chars, at + 1, n).as_str());
            out
        },
        None => {
            proof {
                lemma_one_piece(part@, '}');
            }
            String::from_str(part)
        },
    }
}

fn shown_line_string(line: &str) -> (r: String)
    ensures
        r@ == shown_line(line@),
{
    proof {
        reveal_strlit("# ");
    }
    if starts_with(line, "# ") {
        let chars = chars_of(line);
        assert(line@.subrange(2, line@.len() as int) =~= line@.skip(2));
        return cyan(bold(slice_of(&chars, 2, chars.len()).as_str()).as_str());
    }
    let parts = split_on(line, '{');
    let ghost all = texts(parts@);
    let mut out = parts[0].clone();
    assert(all.take(1)[0] == parts@[0]@);
    let mut i: usize = 1;
    while i < parts.len()
        invariant
            1 <= i <= parts@.len(),
            all == texts(parts@),
            out@ == marked_all(all.take(i as int)),
        decreases parts@.len() - i,
    {
        proof {
            assert(all.take(i + 1).drop_last() =~= all.take(i as int));
            assert(all.take(i + 1).last() == parts@[i as int]@);
        }
        out.append(marked_string(parts[i].as_str()).as_str());
        i += 1;
    }
    assert(all.take(i as int) =~= all);
    out
}

fn shown_lines_string(lines: &Vec<String>) -> (r: String)
    ensures
        r@ == shown_lines(texts(lines@)),
{
    let ghost all = texts(lines@);
    let mut out = String::new();
    let mut i: usize = 0;
    assert(all.take(0) =~= Seq::empty());
    while i < lines.len()
        invariant
            i <= lines@.len(),
            all == texts(lines@),
            out@ == shown_lines(all.take(i as int)),
        decreases lines@.len() - i,
    {
        proof {
            assert(all.take(i + 1).drop_last() =~= all.take(i as int));
            assert(all.take(i + 1).last() == lines@[i as int]@);
        }
        out.append(shown_line_string(lines[i].as_str()).as_str());
        out.append("\n");
        i += 1;
    }
    assert(all.take(i as int) =~= all);
    out
}

/// The commands that ask about code.
pub open spec fn query_lines() -> Seq<Seq<char>> {
    seq![
        ""@,
        "# Available Commands:"@,
        "  {func} ({function}, {f}) <name> - Find a function or macro by name or regex"@,
        "  {type} ({ty}) <name>     - Find a type or typedef by name or regex"@,
        "  {file_survey} ({survey}) <path> - Show compact syntax facts for a source file"@,
        "  {callers} <name>           - Show all functions that call <name>"@,
        "  {calls} <name>             - Show all functions called by <name>"@,
        "  {implementors} <type>.<member>  - Show functions installed in a struct member"@,
        "  {registrations} <name>     - Show where <name> is installed as a callback"@,
        "  {callchain} <name>           - Show complete callchain for <name>"@,
        "  {grep} [-v] <pattern>          - Search function bodies using regex patterns"@,
        "                                   -v: Show full function body (default shows only matching lines)"@,
        "  {vgrep} <query_text>           - Search functions similar to query text using vectors"@,
        "                                   Requires vectors generated with 'semcode-index --vectors'"@,
        "  {vcommit} <query_text>         - Search commits similar to query text using vectors"@,
        "                                   Supports --git <range>, -r <regex>, -s <symbol>, --limit <N>"@,
        "                                   Requires commit vectors generated with 'semcode-index --vectors'"@,
    ]
}

fn query_list() -> (r: Vec<String>)
    ensures
        texts(r@) == query_lines(),
{
    let r = vec![
        String::from_str(""),
        String::from_str("# Available Commands:"),
        String::from_str("  {func} ({function}, {f}) <name> - Find a function or macro by name or regex"),
        String::from_str("  {type} ({ty}) <name>     - Find a type or typedef by name or regex"),
        String::from_str("  {file_survey} ({survey}) <path> - Show compact syntax facts for a source file"),
        String::from_str("  {callers} <name>           - Show all functions that call <name>"),
        String::from_str("  {calls} <name>             - Show all functions called by <name>"),
        String::from_str("  {implementors} <type>.<member>  - Show functions installed in a struct member"),
        String::from_str("  {registrations} <name>     - Show where <name> is installed as a callback"),
        String::from_str("  {callchain} <name>           - Show complete callchain for <name>"),
        String::from_str("  {grep} [-v] <pattern>          - Search function bodies using regex patterns"),
        String::from_str("                                   -v: Show full function body (default shows only matching lines)"),
        String::from_str("  {vgrep} <query_text>           - Search functions similar to query text using vectors"),
        String::from_str("                                   Requires vectors generated with 'semcode-index --vectors'"),
        String::from_str("  {vcommit} <query_text>         - Search commits similar to query text using vectors"),
        String::from_str("                                   Supports --git <range>, -r <regex>, -s <symbol>, --limit <N>"),
        String::from_str("                                   Requires commit vectors generated with 'semcode-index --vectors'"),
    ];
    assert(texts(r@) =~= query_lines());
    r
}

/// The commands that ask about commits.
pub open spec fn commit_lines() -> Seq<Seq<char>> {
    seq![
        ""@,
        "# Git Commit Commands:"@,
        "  {commit} [ref]                  - Show commit metadata for git reference"@,
        "                                   Supports -v (verbose), -r <regex>, -s <symbol>, --limit <N>"@,
        "                                   Use --git <range> for commit ranges (e.g., HEAD~10..HEAD)"@,
        "  {diffinfo} ({di}) [-i file]             - List functions from diff (no analysis)"@,
        "  {tables} ({t})             - List available tables"@,
    ]
}

fn commit_list() -> (r: Vec<String>)
    ensures
        texts(r@) == commit_lines(),
{
    let r = vec![
        String::from_str(""),
        String::from_str("# Git Commit Commands:"),
        String::from_str("  {commit} [ref]                  - Show commit metadata for git reference"),
        String::from_str("                                   Supports -v (verbose), -r <regex>, -s <symbol>, --limit <N>"),
        String::from_str("                                   Use --git <range> for commit ranges (e.g., HEAD~10..HEAD)"),
        String::from_str("  {diffinfo} ({di}) [-i file]             - List functions from diff (no analysis)"),
        String::from_str("  {tables} ({t})             - List available tables"),
    ];
    assert(texts(r@) =~= commit_lines());
    r
}

/// The commands that export tables.
pub open spec fn export_lines() -> Seq<Seq<char>> {
    seq![
        ""@,
        "# Export Commands:"@,
        "  {dump-functions} ({df}) <file>      - Export all functions to JSON file"@,
        "  {dump-types} ({dt}) <file>      - Export all types to JSON file"@,
        "  {dump-typedefs} ({dtd}) <file>     - Export all typedefs to JSON file"@,
        "  {dump-macros} ({dm}) <file>      - Export all macros to JSON file"@,
        "  {dump-calls} ({dc}) <file>      - Export all call relationships to JSON file"@,
        "  {dump-processed-files} ({dpf}) <file>   - Export processed file table to JSON file"@,
        "  {dump-content} ({dcont}) <file>      - Export content table to JSON file"@,
        "  {dump-git-commits} ({dgc}) <file> - Export all git commits to JSON file"@,
        "  {dump-lore} ({dlore}) <file>     - Export all lore emails to JSON file"@,
    ]
}

fn export_list() -> (r: Vec<String>)
    ensures
        texts(r@) == export_lines(),
{
    let r = vec![
        String::from_str(""),
        String::from_str("# Export Commands:"),
        String::from_str("  {dump-functions} ({df}) <file>      - Export all functions to JSON file"),
        String::from_str("  {dump-types} ({dt}) <file>      - Export all types to JSON file"),
        String::from_str("  {dump-typedefs} ({dtd}) <file>     - Export all typedefs to JSON file"),
        String::from_str("  {dump-macros} ({dm}) <file>      - Export all macros to JSON file"),
        String::from_str("  {dump-calls} ({dc}) <file>      - Export all call relationships to JSON file"),
        String::from_str("  {dump-processed-files} ({dpf}) <file>   - Export processed file table to JSON file"),
        String::from_str("  {dump-content} ({dcont}) <file>      - Export content table to JSON file"),
        String::from_str("  {dump-git-commits} ({dgc}) <file> - Export all git commits to JSON file"),
        String::from_str("  {dump-lore} ({dlore}) <file>     - Export all lore emails to JSON file"),
    ];
    assert(texts(r@) =~= export_lines());
    r
}

/// The commands that ask about mailing lists.
pub open spec fn lore_lines() -> Seq<Seq<char>> {
    seq![
        ""@,
        "# Lore Commands:"@,
        "  {lore} [options]                - Search lore kernel emails"@,
        "                                   -m <msg_id>: Get email by message_id"@,
        "                                   -f <regex>: Filter by from field (can use multiple)"@,
        "                                   -s <regex>: Filter by subject (can use multiple)"@,
        "                                   -b <regex>: Filter by body (can use multiple)"@,
        "                                   -t <regex>: Filter by recipients (can use multiple)"@,
        "                                   -v: Show full message body"@,
        "                                   --limit <N>: Limit results (default: 100)"@,
        "                                   --thread: Show full thread"@,
        "  {dig} <commit>                    - Find lore emails for a git commit"@,
    ]
}

fn lore_list() -> (r: Vec<String>)
    ensures
        texts(r@) == lore_lines(),
{
    let r = vec![
        String::from_str(""),
        String::from_str("# Lore Commands:"),
        String::from_str("  {lore} [options]                - Search lore kernel emails"),
        String::from_str("                                   -m <msg_id>: Get email by message_id"),
        String::from_str("                                   -f <regex>: Filter by from field (can use multiple)"),
        String::from_str("                                   -s <regex>: Filter by subject (can use multiple)"),
        String::from_str("                                   -b <regex>: Filter by body (can use multiple)"),
        String::from_str("                                   -t <regex>: Filter by recipients (can use multiple)"),
        String::from_str("                                   -v: Show full message body"),
        String::from_str("                                   --limit <N>: Limit results (default: 100)"),
        String::from_str("                                   --thread: Show full thread"),
        String::from_str("  {dig} <commit>                    - Find lore emails for a git commit"),
    ];
    assert(texts(r@) =~= lore_lines());
    r
}

/// The commands that ask about branches.
pub open spec fn branch_lines() -> Seq<Seq<char>> {
    seq![
        ""@,
        "# Branch Commands:"@,
        "  {branches} ({br})                  - List indexed branches"@,
        "  {branch}                        - Show current branch information"@,
        "  {compare} <b1> <b2>          - Compare two branches"@,
    ]
}

fn branch_list() -> (r: Vec<String>)
    ensures
        texts(r@) == branch_lines(),
{
    let r = vec![
        String::from_str(""),
        String::from_str("# Branch Commands:"),
        String::from_str("  {branches} ({br})                  - List indexed branches"),
        String::from_str("  {branch}                        - Show current branch information"),
        String::from_str("  {compare} <b1> <b2>          - Compare two branches"),
    ];
    assert(texts(r@) =~= branch_lines());
    r
}

/// The commands that look after the database.
pub open spec fn general_lines() -> Seq<Seq<char>> {
    seq![
        ""@,
        "# General:"@,
        "  {check_health} ({health}, {check_db}) - Check if database needs optimization"@,
        "  {optimize_db} ({optimize}, {opt})      - Optimize database (rebuild indices, compact)"@,
        "  {storage_stats} ({stats}, {size})     - Show storage statistics and compression info"@,
        "  {scan_duplicates} ({duplicates}, {dupe}) - Scan for 100% duplicate entries across all tables"@,
        "  {drop_recreate_db} ({drop_recreate}) - Drop and recreate ALL tables (max space savings)"@,
        "  {drop_recreate_table} <table>  - Drop and recreate single table"@,
        "  {help} ({h}, {?})         - Show this help"@,
        "  {quit} ({exit}, {q})         - Exit the program"@,
    ]
}

fn general_list() -> (r: Vec<String>)
    ensures
        texts(r@) == general_lines(),
{
    let r = vec![
        String::from_str(""),
        String::from_str("# General:"),
        String::from_str("  {check_health} ({health}, {check_db}) - Check if database needs optimization"),
        String::from_str("  {optimize_db} ({optimize}, {opt})      - Optimize database (rebuild indices, compact)"),
        String::from_str("  {storage_stats} ({stats}, {size})     - Show storage statistics and compression info"),
        String::from_str("  {scan_duplicates} ({duplicates}, {dupe}) - Scan for 100% duplicate entries across all tables"),
        String::from_str("  {drop_recreate_db} ({drop_recreate}) - Drop and recreate ALL tables (max space savings)"),
        String::from_str("  {drop_recreate_table} <table>  - Drop and recreate single table"),
        String::from_str("  {help} ({h}, {?})         - Show this help"),
        String::from_str("  {quit} ({exit}, {q})         - Exit the program"),
    ];
    assert(texts(r@) =~= general_lines());
    r
}

/// Some commands as they are typed.
pub open spec fn example_lines() -> Seq<Seq<char>> {
    seq![
        ""@,
        "# Examples:"@,
        "  func printk                    # Find function by name"@,
        "  func \"btrfs_.*\"                # Find functions using regex pattern"@,
        "  type struct task_struct        # Find struct by name"@,
        "  callers mutex_lock             # Show what calls mutex_lock"@,
        "  calls schedule                 # Show what schedule calls"@,
        "  callchain kmalloc              # Show complete call graph"@,
        "  diffinfo -i patch.diff         # List functions from diff only"@,
        "  grep malloc\\\\(.*\\\\)               # Search function bodies for malloc calls (shows matching lines)"@,
        "  grep -v if.*==.*NULL             # Find functions with NULL equality checks (shows full body)"@,
        "  grep return.*-1                # Find functions returning -1 (shows matching lines only)"@,
        "  vgrep \"memory allocation\"         # Find functions similar to \"memory allocation\" using vectors"@,
        "  vgrep --limit 5 \"string ops\"      # Find top 5 functions similar to \"string ops\""@,
        "  commit HEAD                        # Show metadata for HEAD commit"@,
        "  commit HEAD~5                      # Show metadata for HEAD~5 commit"@,
    ]
}

fn example_list() -> (r: Vec<String>)
    ensures
        texts(r@) == example_lines(),
{
    let r = vec![
        String::from_str(""),
        String::from_str("# Examples:"),
        String::from_str("  func printk                    # Find function by name"),
        String::from_str("  func \"btrfs_.*\"                # Find functions using regex pattern"),
        String::from_str("  type struct task_struct        # Find struct by name"),
        String::from_str("  callers mutex_lock             # Show what calls mutex_lock"),
        String::from_str("  calls schedule                 # Show what schedule calls"),
        String::from_str("  callchain kmalloc              # Show complete call graph"),
        String::from_str("  diffinfo -i patch.diff         # List functions from diff only"),
        String::from_str("  grep malloc\\\\(.*\\\\)               # Search function bodies for malloc calls (shows matching lines)"),
        String::from_str("  grep -v if.*==.*NULL             # Find functions with NULL equality checks (shows full body)"),
        String::from_str("  grep return.*-1                # Find functions returning -1 (shows matching lines only)"),
        String::from_str("  vgrep \"memory allocation\"         # Find functions similar to \"memory allocation\" using vectors"),
        String::from_str("  vgrep --limit 5 \"string ops\"      # Find top 5 functions similar to \"string ops\""),
        String::from_str("  commit HEAD                        # Show metadata for HEAD commit"),
        String::from_str("  commit HEAD~5                      # Show metadata for HEAD~5 commit"),
    ];
    assert(texts(r@) =~= example_lines());
    r
}

/// More commands as they are typed.
pub open spec fn more_example_lines() -> Seq<Seq<char>> {
    seq![
        "  commit --git HEAD~10..HEAD         # Show all commits in range"@,
        "  commit --git HEAD~10..HEAD -v      # Show commits with full diffs"@,
        "  commit -r \"malloc\" -r \"free\"      # Show commits matching both \"malloc\" AND \"free\""@,
        "  commit -s \"kmalloc\"                # Show commits that modified kmalloc"@,
        "  commit --git HEAD~100..HEAD -s \"struct.*\" --limit 20  # Show up to 20 commits modifying structs"@,
        "  vcommit \"fix memory leak\"          # Find commits semantically similar to \"fix memory leak\""@,
        "  vcommit --git HEAD~50..HEAD \"performance\"  # Search commits in range"@,
        "  vcommit -r \"malloc\" -r \"free\" --limit 10 \"memory\"  # Find memory-related commits with both malloc and free"@,
        "  lore -s \"memory leak\"                 # Search lore emails by subject"@,
        "  lore -g \"malloc\"                      # Search lore emails by symbol"@,
        "  lore -f \"torvalds\" -b \"btrfs\"        # From torvalds AND body contains btrfs"@,
        "  lore -m \"<msg-id@example.org>\"        # Get email by exact message ID"@,
        "  dig HEAD                               # Find lore emails for HEAD commit"@,
        "  dig v6.5                               # Find lore emails for v6.5 tag"@,
        ""@,
    ]
}

fn more_example_list() -> (r: Vec<String>)
    ensures
        texts(r@) == more_example_lines(),
{
    let r = vec![
        String::from_str("  commit --git HEAD~10..HEAD         # Show all commits in range"),
        String::from_str("  commit --git HEAD~10..HEAD -v      # Show commits with full diffs"),
        String::from_str("  commit -r \"malloc\" -r \"free\"      # Show commits matching both \"malloc\" AND \"free\""),
        String::from_str("  commit -s \"kmalloc\"                # Show commits that modified kmalloc"),
        String::from_str("  commit --git HEAD~100..HEAD -s \"struct.*\" --limit 20  # Show up to 20 commits modifying structs"),
        String::from_str("  vcommit \"fix memory leak\"          # Find commits semantically similar to \"fix memory leak\""),
        String::from_str("  vcommit --git HEAD~50..HEAD \"performance\"  # Search commits in range"),
        String::from_str("  vcommit -r \"malloc\" -r \"free\" --limit 10 \"memory\"  # Find memory-related commits with both malloc and free"),
        String::from_str("  lore -s \"memory leak\"                 # Search lore emails by subject"),
        String::from_str("  lore -g \"malloc\"                      # Search lore emails by symbol"),
        String::from_str("  lore -f \"torvalds\" -b \"btrfs\"        # From torvalds AND body contains btrfs"),
        String::from_str("  lore -m \"<msg-id@example.org>\"        # Get email by exact message ID"),
        String::from_str("  dig HEAD                               # Find lore emails for HEAD commit"),
        String::from_str("  dig v6.5                               # Find lore emails for v6.5 tag"),
        String::from_str(""),
    ];
    assert(texts(r@) =~= more_example_lines());
    r
}

/// Where to begin.
pub open spec fn quick_start_lines() -> Seq<Seq<char>> {
    seq![
        ""@,
        "Type '{help}' for complete command list with examples."@,
        ""@,
        "# Quick Start:"@,
        "  {func} <name>                      # Find function/macro"@,
        "  {type} <name>                      # Find type/struct"@,
        "  {callers} <name>                     # Show call relationships"@,
        "  {callchain} <name>                     # Show complete call graph"@,
        "  {grep} <pattern>                        # Search function bodies with regex"@,
        "  {vgrep} <query>                         # Search similar functions with vectors"@,
        "  {commit} <ref>                        # Show commit metadata"@,
        "  {vcommit} <query>                       # Search similar commits with vectors"@,
        "  {diffinfo} [-i file]                   # List diff functions"@,
        "  {tables}                             # Show available data"@,
        "  {quit}                             # Exit"@,
        ""@,
    ]
}

fn quick_start_list() -> (r: Vec<String>)
    ensures
        texts(r@) == quick_start_lines(),
{
    let r = vec![
        String::from_str(""),
        String::from_str("Type '{help}' for complete command list with examples."),
        String::from_str(""),
        String::from_str("# Quick Start:"),
        String::from_str("  {func} <name>                      # Find function/macro"),
        String::from_str("  {type} <name>                      # Find type/struct"),
        String::from_str("  {callers} <name>                     # Show call relationships"),
        String::from_str("  {callchain} <name>                     # Show complete call graph"),
        String::from_str("  {grep} <pattern>                        # Search function bodies with regex"),
        String::from_str("  {vgrep} <query>                         # Search similar functions with vectors"),
        String::from_str("  {commit} <ref>                        # Show commit metadata"),
        String::from_str("  {vcommit} <query>                       # Search similar commits with vectors"),
        String::from_str("  {diffinfo} [-i file]                   # List diff functions"),
        String::from_str("  {tables}                             # Show available data"),
        String::from_str("  {quit}                             # Exit"),
        String::from_str(""),
    ];
    assert(texts(r@) =~= quick_start_lines());
    r
}

/// The text of the list of commands.
pub open spec fn command_help() -> Seq<char> {
    shown_lines(query_lines()) + shown_lines(commit_lines()) + shown_lines(export_lines())
        + shown_lines(lore_lines()) + shown_lines(branch_lines()) + shown_lines(general_lines())
}

/// The list of commands.
pub fn print_command_help() -> (r: String)
    ensures
        r@ == command_help(),
{
    let mut out = shown_lines_string(&query_list());
    out.append(shown_lines_string(&commit_list()).as_str());
    out.append(shown_lines_string(&export_list()).as_str());
    out.append(shown_lines_string(&lore_list()).as_str());
    out.append(shown_lines_string(&branch_list()).as_str());
    out.append(shown_lines_string(&general_list()).as_str());
    out
}

/// The whole help: the list of commands, and examples.
pub fn print_help() -> (r: String)
    ensures
        r@ == command_help() + shown_lines(example_lines()) + shown_lines(more_example_lines()),
{
    let mut out = print_command_help();
    out.append(shown_lines_string(&example_list()).as_str());
    out.append(shown_lines_string(&more_example_list()).as_str());
    out
}

/// The text that greets.
pub open spec fn welcome_text(
    database_path: Seq<char>,
    tables: nat,
    model_path: Option<&str>,
) -> Seq<char> {
    green_text(bold_text("=== Semantic Code Query Tool ==="@)) + "\n"@ + "Database: "@ + cyan_text(
        database_path,
    ) + "\n"@ + (match model_path {
        Some(path) => "Model Path: "@ + bright_blue_text(path@) + " "@ + grey_text(
            "(for vgrep semantic search)"@,
        ) + "\n"@,
        None => Seq::empty(),
    }) + (if tables == 0 {
        red_text("Warning: No tables found in database!"@) + "\n"@
            + "Make sure you've indexed some code first with semcode-index\n"@
    } else {
        Seq::empty()
    }) + shown_lines(quick_start_lines())
}

/// The text that greets, with where the model for semantic search is.
pub fn print_welcome_message_with_model(
    database_path: &str,
    tables: &[String],
    model_path: Option<&str>,
) -> (r: String)
    ensures
        r@ == welcome_text(database_path@, tables@.len(), model_path),
{
    let mut out = green(bold("=== Semantic Code Query Tool ===").as_str());
    out.append("\n");
    out.append("Database: ");
    out.append(cyan(database_path).as_str());
    out.append("\n");
    let mut model = String::new();
    if let Some(path) = model_path {
        model = String::from_str("Model Path: ");
        model.append(bright_blue(path).as_str());
        model.append(" ");
        model.append(grey("(for vgrep semantic search)").as_str());
        model.append("\n");
    }
    out.append(model.as_str());
    let mut warning = String::new();
    if tables.len() == 0 {
        warning = red("Warning: No tables found in database!");
        warning.append("\n");
        warning.append("Make sure you've indexed some code first with semcode-index\n");
    }
    out.append(warning.as_str());
    out.append(shown_lines_string(&quick_start_list()).as_str());
    out
}

/// The text that greets.
pub fn print_welcome_message(database_path: &str, tables: &[String]) -> (r: String)
    ensures
        r@ == welcome_text(database_path@, tables@.len(), None),
{
    print_welcome_message_with_model(database_path, tables, None)
}

} // verus!
