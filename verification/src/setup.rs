//! Where the swept root is, and what a new one holds.

use vstd::prelude::*;

use crate::paths;
use crate::paths::join;

verus! {

/// What the `.gitignore` of a new root holds.
pub const GITIGNORE_TEXT: &'static str = "*\n!.gitignore\n!README.md\n";

/// What the `README.md` of a new root holds.
pub const README_TEXT: &'static str = "# Workspace/tmp/\n\n\
     Primary scratch directory. Files placed here are swept by\n\
     [chikaharu/bomb-ttl](https://github.com/chikaharu/bomb-ttl)\n\
     after the configured TTL (default 24h) via the `tren-crc`\n\
     `qsub` scheduler.\n\n\
     Do **not** put long-lived sources, build outputs you want to\n\
     keep, or anything you can't reproduce here.\n";

/// The swept root: the one that was given, else the one that the environment
/// names, else `Workspace/tmp` in the working directory or, where that is not
/// known, in `.`.
pub open spec fn root_of(
    explicit: Option<Vec<u8>>,
    workspace_tmp: Option<String>,
    cwd: Option<Vec<u8>>,
) -> Seq<u8> {
    match explicit {
        Some(p) => p@,
        None => if workspace_tmp is Some && workspace_tmp->0@.len() > 0 {
            vstd::utf8::encode_utf8(workspace_tmp->0@)
        } else {
            let base = match cwd {
                Some(d) => d@,
                None => seq![paths::DOT],
            };
            paths::joined(
                paths::joined(base, vstd::utf8::encode_utf8("Workspace"@)),
                vstd::utf8::encode_utf8("tmp"@),
            )
        },
    }
}

/// Resolves the swept root from `--root`, from the value of `WORKSPACE_TMP`
/// and from the working directory.
pub fn resolve_root(
    explicit: Option<Vec<u8>>,
    workspace_tmp: Option<String>,
    cwd: Option<Vec<u8>>,
) -> (root: Vec<u8>)
    ensures
        root@ == root_of(explicit, workspace_tmp, cwd),
{
    if let Some(p) = explicit {
        return p;
    }
    if let Some(env) = workspace_tmp {
        if !env.as_str().is_empty() {
            return vstd::slice::slice_to_vec(env.as_str().as_bytes());
        }
    }
    let base = match cwd {
        Some(d) => d,
        None => {
            let mut here: Vec<u8> = Vec::new();
            here.push(paths::DOT);
            assert(here@ =~= seq![paths::DOT]);
            here
        },
    };
    join(join(base, "Workspace".as_bytes()), "tmp".as_bytes())
}

/// Something to do in a root so that it can be swept.
#[derive(Debug)]
pub enum SetupStep {
    /// Write a file that is not there yet.
    WriteFile { name: String, contents: String },
    /// Make a directory, if it is not there yet.
    MakeDir { name: String },
}

/// The contents of a [`SetupStep`].
pub enum SetupView {
    WriteFile { name: Seq<char>, contents: Seq<char> },
    MakeDir { name: Seq<char> },
}

impl View for SetupStep {
    type V = SetupView;

    open spec fn view(&self) -> SetupView {
        match self {
            SetupStep::WriteFile { name, contents } => SetupView::WriteFile {
                name: name@,
                contents: contents@,
            },
            SetupStep::MakeDir { name } => SetupView::MakeDir { name: name@ },
        }
    }
}

/// The contents of each step.
pub open spec fn setup_views(v: Seq<SetupStep>) -> Seq<SetupView> {
    v.map_values(|s: SetupStep| s@)
}

/// What there is to do in a root: the files that it lacks are written, and
/// the state directory is made.
pub open spec fn setup_of(has_gitignore: bool, has_readme: bool) -> Seq<SetupView> {
    let gitignore = if has_gitignore {
        Seq::empty()
    } else {
        seq![SetupView::WriteFile { name: ".gitignore"@, contents: GITIGNORE_TEXT@ }]
    };
    let readme = if has_readme {
        Seq::empty()
    } else {
        seq![SetupView::WriteFile { name: "README.md"@, contents: README_TEXT@ }]
    };
    gitignore + readme + seq![SetupView::MakeDir { name: crate::STATE_DIR_NAME@ }]
}

/// What there is to do in a root that exists, told from which of its files
/// are there.
pub fn ensure_root(has_gitignore: bool, has_readme: bool) -> (steps: Vec<SetupStep>)
    ensures
        setup_views(steps@) == setup_of(has_gitignore, has_readme),
{
    let mut steps: Vec<SetupStep> = Vec::new();
    if !has_gitignore {
        steps.push(
            SetupStep::WriteFile {
                name: ".gitignore".to_owned(),
                contents: GITIGNORE_TEXT.to_owned(),
            },
        );
    }
    if !has_readme {
        steps.push(
            SetupStep::WriteFile {
                name: "README.md".to_owned(),
                contents: README_TEXT.to_owned(),
            },
        );
    }
    steps.push(SetupStep::MakeDir { name: crate::STATE_DIR_NAME.to_owned() });
    assert(setup_views(steps@) =~= setup_of(has_gitignore, has_readme));
    steps
}

/// Nothing that is placed in a new root is ever swept.
pub proof fn law_setup_is_never_swept(has_gitignore: bool, has_readme: bool, i: int)
    requires
        0 <= i < setup_of(has_gitignore, has_readme).len(),
    ensures
        crate::sweep::is_kept_name(
            vstd::utf8::encode_utf8(
                match setup_of(has_gitignore, has_readme)[i] {
                    SetupView::WriteFile { name, .. } => name,
                    SetupView::MakeDir { name } => name,
                },
            ),
        ),
{
}

/// A file of the root that is there is not written.
pub proof fn law_setup_overwrites_nothing(has_gitignore: bool, has_readme: bool, i: int)
    requires
        0 <= i < setup_of(has_gitignore, has_readme).len(),
    ensures
        setup_of(has_gitignore, has_readme)[i] matches SetupView::WriteFile { name, .. } ==> {
            &&& name == ".gitignore"@ ==> !has_gitignore
            &&& name == "README.md"@ ==> !has_readme
        },
{
    reveal_strlit(".gitignore");
    reveal_strlit("README.md");
    assert(".gitignore"@.len() != "README.md"@.len());
}

/// A root that was given is the root, else one that the environment names and
/// that is not empty, whatever else is known.
pub proof fn law_given_root_comes_first(
    explicit: Option<Vec<u8>>,
    workspace_tmp: Option<String>,
    cwd: Option<Vec<u8>>,
)
    ensures
        explicit is Some ==> root_of(explicit, workspace_tmp, cwd) == explicit->0@,
        explicit is None && workspace_tmp is Some && workspace_tmp->0@.len() > 0 ==> root_of(
            explicit,
            workspace_tmp,
            cwd,
        ) == vstd::utf8::encode_utf8(workspace_tmp->0@),
{
}

/// Without a root that was given or named, it is `tmp` in `Workspace` in the
/// working directory, if that is known, and else in the place that relative
/// paths start from.
pub proof fn law_default_root_is_in_the_workspace(
    workspace_tmp: Option<String>,
    cwd: Option<Vec<u8>>,
)
    requires
        workspace_tmp is None || workspace_tmp->0@.len() == 0,
    ensures
        ({
            let root = root_of(None, workspace_tmp, cwd);
            let above = match cwd {
                Some(d) => paths::names(d@),
                None => Seq::empty(),
            };
            &&& paths::names(root) == above.push(vstd::utf8::encode_utf8("Workspace"@)).push(
                vstd::utf8::encode_utf8("tmp"@),
            )
            &&& cwd is Some ==> cwd->0@.is_prefix_of(root)
        }),
{
    reveal_strlit("Workspace");
    reveal_strlit("tmp");
    let outer = vstd::utf8::encode_utf8("Workspace"@);
    let inner = vstd::utf8::encode_utf8("tmp"@);
    paths::lemma_ascii_name("Workspace"@);
    paths::lemma_ascii_name("tmp"@);
    let base = match cwd {
        Some(d) => d@,
        None => seq![paths::DOT],
    };
    paths::law_names_without_slash(seq![paths::DOT]);
    let above = paths::names(base);
    paths::law_joined_has_the_names_of_both(base, outer);
    paths::law_joined_has_the_names_of_both(paths::joined(base, outer), inner);
    assert(above + seq![outer] + seq![inner] =~= above.push(outer).push(inner));
    let root = root_of(None, workspace_tmp, cwd);
    assert(root.take(base.len() as int) =~= paths::joined(base, outer).take(base.len() as int));
}

/// The files that a root lacks are written, each once, and its state directory
/// is made.
pub proof fn law_setup_provides_what_is_missing(has_gitignore: bool, has_readme: bool)
    ensures
        setup_of(has_gitignore, has_readme).contains(
            SetupView::WriteFile { name: ".gitignore"@, contents: GITIGNORE_TEXT@ },
        ) <==> !has_gitignore,
        setup_of(has_gitignore, has_readme).contains(
            SetupView::WriteFile { name: "README.md"@, contents: README_TEXT@ },
        ) <==> !has_readme,
        setup_of(has_gitignore, has_readme).contains(SetupView::MakeDir { name: ".bomb-ttl"@ }),
        setup_of(has_gitignore, has_readme).len() == 1 + (if has_gitignore {
            0nat
        } else {
            1nat
        }) + (if has_readme {
            0nat
        } else {
            1nat
        }),
{
    reveal_strlit(".gitignore");
    reveal_strlit("README.md");
    assert(".gitignore"@.len() != "README.md"@.len());
    let all = setup_of(has_gitignore, has_readme);
    assert(all.last() == SetupView::MakeDir { name: ".bomb-ttl"@ });
    if !has_gitignore {
        assert(all[0] == SetupView::WriteFile { name: ".gitignore"@, contents: GITIGNORE_TEXT@ });
    }
    if !has_readme {
        assert(all[all.len() - 2] == SetupView::WriteFile {
            name: "README.md"@,
            contents: README_TEXT@,
        });
    }
}

} // verus!
