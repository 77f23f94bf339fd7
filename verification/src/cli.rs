//! The command line: `rewrite [--dry-run] [--config <path>] <command...>`.

use vstd::prelude::*;

use crate::text::{self, join, same_text};

verus! {

/// What a command line asks for.
#[derive(Debug, PartialEq)]
pub struct RewriteArgs {
    pub dry_run: bool,
    pub config_path: Option<String>,
    pub command: String,
}

/// What a [`RewriteArgs`] holds.
pub struct ArgsView {
    pub dry_run: bool,
    pub config_path: Option<Seq<char>>,
    pub command: Seq<char>,
}

impl DeepView for RewriteArgs {
    type V = ArgsView;

    open spec fn deep_view(&self) -> ArgsView {
        ArgsView {
            dry_run: self.dry_run,
            config_path: self.config_path.deep_view(),
            command: self.command@,
        }
    }
}

/// Why a command line is refused.
#[derive(Debug, PartialEq)]
pub enum UsageError {
    /// There are no arguments.
    NoArguments,
    /// The first argument is no subcommand.
    UnknownSubcommand(String),
    /// `--config` is the last argument.
    NoConfigPath,
    /// No command follows the options.
    NoCommand,
}

/// What a [`UsageError`] says.
pub enum UsageView {
    NoArguments,
    UnknownSubcommand(Seq<char>),
    NoConfigPath,
    NoCommand,
}

impl DeepView for UsageError {
    type V = UsageView;

    open spec fn deep_view(&self) -> UsageView {
        match self {
            UsageError::NoArguments => UsageView::NoArguments,
            UsageError::UnknownSubcommand(name) => UsageView::UnknownSubcommand(name@),
            UsageError::NoConfigPath => UsageView::NoConfigPath,
            UsageError::NoCommand => UsageView::NoCommand,
        }
    }
}

/// What the arguments behind `rewrite` ask for, given the options read before them.
///
/// Options come first; the first argument that is no option starts the command, and everything
/// from there on belongs to it. Of an option that is given twice the last one counts.
pub open spec fn asked(
    args: Seq<Seq<char>>,
    dry_run: bool,
    config_path: Option<Seq<char>>,
) -> Result<ArgsView, UsageView>
    decreases args.len(),
{
    if args.len() == 0 {
        Err(UsageView::NoCommand)
    } else if args[0] == "--dry-run"@ {
        asked(args.skip(1), true, config_path)
    } else if args[0] == "--config"@ {
        if args.len() == 1 {
            Err(UsageView::NoConfigPath)
        } else {
            asked(args.skip(2), dry_run, Some(args[1]))
        }
    } else {
        Ok(ArgsView { dry_run, config_path, command: text::joined(args) })
    }
}

/// What a command line asks for.
pub open spec fn parsed(args: Seq<Seq<char>>) -> Result<ArgsView, UsageView> {
    if args.len() == 0 {
        Err(UsageView::NoArguments)
    } else if args[0] != "rewrite"@ {
        Err(UsageView::UnknownSubcommand(args[0]))
    } else {
        asked(args.skip(1), false, None)
    }
}

/// How the program is used.
pub open spec fn usage_text() -> Seq<char> {
    "Usage: prefixe rewrite [--dry-run] [--config <path>] <command...>"@
}

/// The lines that report an error.
pub open spec fn report_of(error: UsageView) -> Seq<Seq<char>> {
    match error {
        UsageView::NoArguments => seq![usage_text()],
        UsageView::UnknownSubcommand(name) => seq![
            "prefixe: unknown subcommand '"@ + name + "'"@,
            usage_text(),
        ],
        UsageView::NoConfigPath => seq!["prefixe: --config requires a path argument"@],
        UsageView::NoCommand => seq!["prefixe rewrite: no command given"@, usage_text()],
    }
}

/// How the program is used.
pub fn usage() -> (r: String)
    ensures
        r@ == usage_text(),
{
    "Usage: prefixe rewrite [--dry-run] [--config <path>] <command...>".to_owned()
}

impl UsageError {
    /// The lines that report this error.
    pub fn report(&self) -> (r: Vec<String>)
        ensures
            r.deep_view() == report_of(self.deep_view()),
    {
        let mut lines: Vec<String> = Vec::new();
        match self {
            UsageError::NoArguments => {
                lines.push(usage());
            },
            UsageError::UnknownSubcommand(name) => {
                let mut line = "prefixe: unknown subcommand '".to_owned();
                line.append(name.as_str());
                line.append("'");
                lines.push(line);
                lines.push(usage());
            },
            UsageError::NoConfigPath => {
                lines.push("prefixe: --config requires a path argument".to_owned());
            },
            UsageError::NoCommand => {
                lines.push("prefixe rewrite: no command given".to_owned());
                lines.push(usage());
            },
        }
        assert(lines.deep_view() =~= report_of(self.deep_view()));
        lines
    }
}

/// Reads a command line, which starts with the subcommand.
pub fn parse_args(args: &[String]) -> (r: Result<RewriteArgs, UsageError>)
    ensures
        match r {
            Ok(asked) => parsed(args.deep_view()) == Ok::<ArgsView, UsageView>(asked.deep_view()),
            Err(error) => parsed(args.deep_view()) == Err::<ArgsView, UsageView>(
                error.deep_view(),
            ),
        },
{
    let ghost all = args.deep_view();
    if args.len() == 0 {
        return Err(UsageError::NoArguments);
    }
    if !same_text(args[0].as_str(), "rewrite") {
        return Err(UsageError::UnknownSubcommand(args[0].clone()));
    }
    let mut dry_run: bool = false;
    let mut config_path: Option<String> = None;
    let mut i: usize = 1;
    while i < args.len()
        invariant
            all == args.deep_view(),
            1 <= i <= args.len(),
            parsed(all) == asked(all.skip(i as int), dry_run, config_path.deep_view()),
        decreases args.len() - i,
    {
        proof {
            assert(all.skip(i as int)[0] == args@[i as int]@);
            assert(all.skip(i as int).skip(1) =~= all.skip(i + 1));
        }
        if same_text(args[i].as_str(), "--dry-run") {
            dry_run = true;
            i += 1;
        } else if same_text(args[i].as_str(), "--config") {
            if i + 1 >= args.len() {
                return Err(UsageError::NoConfigPath);
            }
            proof {
                assert(all.skip(i as int)[1] == args@[i + 1]@);
                assert(all.skip(i as int).skip(2) =~= all.skip(i + 2));
            }
            config_path = Some(args[i + 1].clone());
            i += 2;
        } else {
            let rest = vstd::slice::slice_subrange(args, i, args.len());
            assert(rest.deep_view() =~= all.skip(i as int));
            return Ok(RewriteArgs { dry_run, config_path, command: join(rest) });
        }
    }
    Err(UsageError::NoCommand)
}

/// A command line without arguments is refused; one whose first argument is not `rewrite` is
/// refused with that argument; and else the arguments behind `rewrite` are read, with no option
/// set.
pub proof fn law_subcommand(first: Seq<char>, rest: Seq<Seq<char>>)
    ensures
        parsed(seq![]) == Err::<ArgsView, UsageView>(UsageView::NoArguments),
        first != "rewrite"@ ==> parsed(seq![first] + rest) == Err::<ArgsView, UsageView>(
            UsageView::UnknownSubcommand(first),
        ),
        first == "rewrite"@ ==> parsed(seq![first] + rest) == asked(rest, false, None),
{
    assert((seq![first] + rest).skip(1) =~= rest);
}

/// Options are read from the left: `--dry-run` sets the dry run, `--config` takes the argument
/// behind it as the path and is refused as the last one. The first argument that is neither
/// starts the command, which is that argument and all behind it, with a space between neighbours;
/// without one the command line is refused.
pub proof fn law_options(
    dry_run: bool,
    config_path: Option<Seq<char>>,
    first: Seq<char>,
    path: Seq<char>,
    rest: Seq<Seq<char>>,
)
    ensures
        asked(seq![], dry_run, config_path) == Err::<ArgsView, UsageView>(UsageView::NoCommand),
        asked(seq!["--dry-run"@] + rest, dry_run, config_path) == asked(rest, true, config_path),
        asked(seq!["--config"@], dry_run, config_path) == Err::<ArgsView, UsageView>(
            UsageView::NoConfigPath,
        ),
        asked(seq!["--config"@, path] + rest, dry_run, config_path) == asked(
            rest,
            dry_run,
            Some(path),
        ),
        first != "--dry-run"@ && first != "--config"@ ==> asked(
            seq![first] + rest,
            dry_run,
            config_path,
        ) == Ok::<ArgsView, UsageView>(
            ArgsView { dry_run, config_path, command: text::joined(seq![first] + rest) },
        ),
{
    reveal_strlit("--dry-run");
    reveal_strlit("--config");
    assert("--dry-run"@.len() != "--config"@.len());
    assert((seq!["--dry-run"@] + rest).skip(1) =~= rest);
    assert((seq!["--config"@, path] + rest).skip(2) =~= rest);
}

/// The lines that report each error.
pub proof fn law_reports(name: Seq<char>)
    ensures
        report_of(UsageView::NoArguments) == seq![
            "Usage: prefixe rewrite [--dry-run] [--config <path>] <command...>"@,
        ],
        report_of(UsageView::UnknownSubcommand(name)) == seq![
            "prefixe: unknown subcommand '"@ + name + "'"@,
            "Usage: prefixe rewrite [--dry-run] [--config <path>] <command...>"@,
        ],
        report_of(UsageView::NoConfigPath) == seq!["prefixe: --config requires a path argument"@],
        report_of(UsageView::NoCommand) == seq![
            "prefixe rewrite: no command given"@,
            "Usage: prefixe rewrite [--dry-run] [--config <path>] <command...>"@,
        ],
{
}

/// What contracts see of what a command line asks for is what it holds, field by field.
pub proof fn law_seen_as_held(args: RewriteArgs, name: String)
    ensures
        args.deep_view().dry_run == args.dry_run,
        args.deep_view().config_path == args.config_path.deep_view(),
        args.deep_view().command == args.command@,
        UsageError::NoArguments.deep_view() == UsageView::NoArguments,
        UsageError::UnknownSubcommand(name).deep_view() == UsageView::UnknownSubcommand(name@),
        UsageError::NoConfigPath.deep_view() == UsageView::NoConfigPath,
        UsageError::NoCommand.deep_view() == UsageView::NoCommand,
{
}

} // verus!
