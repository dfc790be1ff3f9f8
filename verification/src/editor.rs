//! Editor resolution: which command opens an attempt's worktree.
//!
//! The configuration names an editor (or a custom command line); a request
//! may override the editor by name. The library resolves the command and
//! appends the worktree path; spawning it is the caller's side.

use vstd::prelude::*;

verus! {

use crate::model::{OpenEditorRequest, opt_view};
use crate::text::{spec_blank, spec_split, spec_trim};

/// The editors the configuration recognizes.
#[derive(Clone, Copy, Debug, PartialEq, Eq, Structural)]
pub enum EditorType {
    VSCode,
    Cursor,
    Windsurf,
    IntelliJ,
    Zed,
    Custom,
}

/// The editor configuration: which editor, and the custom command line used
/// when it is `Custom`.
#[derive(Clone, Debug)]
pub struct EditorConfig {
    pub editor_type: EditorType,
    pub custom_command: Option<String>,
}

/// Which editor a request's name resolves to; an unrecognized name keeps the
/// configured editor.
pub open spec fn spec_resolve_editor(s: Seq<char>, configured: EditorType) -> EditorType {
    if s == "vscode"@ {
        EditorType::VSCode
    } else if s == "cursor"@ {
        EditorType::Cursor
    } else if s == "windsurf"@ {
        EditorType::Windsurf
    } else if s == "intellij"@ {
        EditorType::IntelliJ
    } else if s == "zed"@ {
        EditorType::Zed
    } else if s == "custom"@ {
        EditorType::Custom
    } else {
        configured
    }
}

/// Resolve an editor name.
pub fn resolve_editor_type(s: &str, configured: EditorType) -> (r: EditorType)
    ensures
        r == spec_resolve_editor(s@, configured),
{
    if crate::text::str_eq(s, "vscode") {
        EditorType::VSCode
    } else if crate::text::str_eq(s, "cursor") {
        EditorType::Cursor
    } else if crate::text::str_eq(s, "windsurf") {
        EditorType::Windsurf
    } else if crate::text::str_eq(s, "intellij") {
        EditorType::IntelliJ
    } else if crate::text::str_eq(s, "zed") {
        EditorType::Zed
    } else if crate::text::str_eq(s, "custom") {
        EditorType::Custom
    } else {
        configured
    }
}

/// The words of a custom command line: split on spaces, blank pieces
/// dropped.
pub open spec fn spec_command_words(c: Seq<char>) -> Seq<Seq<char>> {
    spec_split(c, " "@).filter(|w: Seq<char>| w.len() > 0)
}

/// The command an editor configuration names, before the worktree path is
/// appended: the known editors' binaries, or the custom command's words,
/// falling back to `code` when no usable custom command is configured.
pub open spec fn spec_editor_command(t: EditorType, custom: Option<Seq<char>>) -> Seq<Seq<char>> {
    match t {
        EditorType::VSCode => seq!["code"@],
        EditorType::Cursor => seq!["cursor"@],
        EditorType::Windsurf => seq!["windsurf"@],
        EditorType::IntelliJ => seq!["idea"@],
        EditorType::Zed => seq!["zed"@],
        EditorType::Custom => match custom {
            Option::Some(c) => if spec_command_words(c).len() > 0 {
                spec_command_words(c)
            } else {
                seq!["code"@]
            },
            Option::None => seq!["code"@],
        },
    }
}

/// Resolve the editor command of a configuration.
pub fn editor_command(config: &EditorConfig) -> (r: Vec<String>)
    ensures
        r@.map_values(|x: String| x@) == spec_editor_command(
            config.editor_type,
            opt_view(config.custom_command),
        ),
        r@.len() > 0,
{
    let r = match config.editor_type {
        EditorType::VSCode => single_word("code"),
        EditorType::Cursor => single_word("cursor"),
        EditorType::Windsurf => single_word("windsurf"),
        EditorType::IntelliJ => single_word("idea"),
        EditorType::Zed => single_word("zed"),
        EditorType::Custom => match &config.custom_command {
            Option::Some(c) => {
                let words = command_words(c.as_str());
                if words.len() > 0 {
                    words
                } else {
                    single_word("code")
                }
            },
            Option::None => single_word("code"),
        },
    };
    r
}

/// The words of a custom command line, executably.
fn command_words(c: &str) -> (r: Vec<String>)
    ensures
        r@.map_values(|x: String| x@) == spec_command_words(c@),
{
    proof {
        reveal_strlit(" ");
    }
    let pieces = crate::text::split_on(c, " ");
    let ghost pv = pieces@.map_values(|x: String| x@);
    let n: usize = pieces.len();
    let mut out: Vec<String> = Vec::new();
    let mut i: usize = 0;
    proof {
        assert(pv.take(0) =~~= Seq::<Seq<char>>::empty());
        reveal(Seq::filter);
        assert(out@.map_values(|x: String| x@) =~= pv.take(0).filter(
            |w: Seq<char>| w.len() > 0,
        ));
    }
    while i < n
        invariant
            n == pieces.len(),
            pv == pieces@.map_values(|x: String| x@),
            0 <= i <= n,
            out@.map_values(|x: String| x@) == pv.take(i as int).filter(
                |w: Seq<char>| w.len() > 0,
            ),
        decreases n - i,
    {
        proof {
            assert(pv.take(i + 1) =~~= pv.take(i as int).push(pv[i as int]));
            crate::store::lemma_filter_push(
                pv.take(i as int),
                |w: Seq<char>| w.len() > 0,
                pv[i as int],
            );
        }
        if pieces[i].as_str().unicode_len() > 0 {
            let ghost o0 = out@;
            out.push(pieces[i].clone());
            proof {
                assert(out@.map_values(|x: String| x@) =~= o0.map_values(|x: String| x@).push(
                    pv[i as int],
                ));
            }
        }
        i = i + 1;
    }
    proof {
        assert(pv.take(n as int) =~~= pv);
    }
    out
}

/// One-word command.
fn single_word(w: &str) -> (r: Vec<String>)
    ensures
        r@.map_values(|x: String| x@) == seq![w@],
{
    let mut r: Vec<String> = Vec::new();
    r.push(String::from_str(w));
    proof {
        assert(r@.map_values(|x: String| x@) =~= seq![w@]);
    }
    r
}

/// The full invocation that opens an attempt's worktree: the resolved editor
/// command — a request may override the configured editor by name — with the
/// worktree path as final argument.
pub fn editor_invocation(
    config: &EditorConfig,
    requested: &Option<OpenEditorRequest>,
    worktree_path: &str,
) -> (r: Vec<String>)
    ensures
        ({
            let chosen = match requested {
                Option::Some(req) => match opt_view(req.editor_type) {
                    Option::Some(name) => spec_resolve_editor(name, config.editor_type),
                    Option::None => config.editor_type,
                },
                Option::None => config.editor_type,
            };
            r@.map_values(|x: String| x@) == spec_editor_command(
                chosen,
                opt_view(config.custom_command),
            ).push(worktree_path@)
        }),
{
    let chosen = match requested {
        Option::Some(req) => match &req.editor_type {
            Option::Some(name) => resolve_editor_type(name.as_str(), config.editor_type),
            Option::None => config.editor_type,
        },
        Option::None => config.editor_type,
    };
    let override_config = EditorConfig {
        editor_type: chosen,
        custom_command: crate::model::clone_opt_string(&config.custom_command),
    };
    let mut cmd = editor_command(&override_config);
    let ghost cv = cmd@.map_values(|x: String| x@);
    cmd.push(String::from_str(worktree_path));
    proof {
        assert(cmd@.map_values(|x: String| x@) =~= cv.push(worktree_path@));
    }
    cmd
}

} // verus!
