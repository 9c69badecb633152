//! The command line: which command is meant, and where the vault is.

use crate::text::{begins_with, owned, same_text};
use crate::{text, vault};
use vstd::prelude::*;

verus! {

/// What the program is asked to do.
#[derive(Debug, Clone)]
pub enum Command {
    /// Spawned by the browser, which passes the extension's origin.
    Host { origin: String },
    Run,
    Install,
    Uninstall,
    Status,
    Permission,
    Help,
    Unknown { name: String },
}

/// Where the vault is to be.
#[derive(Debug, Clone)]
pub enum RootChoice {
    At { path: String },
    /// The default place, in the home folder.
    Default,
}

/// Why the command line cannot be followed.
#[derive(Debug, Clone, Copy, PartialEq, Eq, Structural)]
pub enum CliError {
    /// `--vault` is the last word.
    VaultNeedsPath,
}

/// `c` is what the first word asks for. Without one the program runs.
pub open spec fn is_command(args: Seq<Seq<char>>, c: Command) -> bool {
    let word = if args.len() == 0 {
        "run"@
    } else {
        args[0]
    };
    if text::has_prefix(word, "chrome-extension://"@) {
        c matches Command::Host { origin } && origin@ == word
    } else if word == "run"@ {
        c is Run
    } else if word == "install"@ {
        c is Install
    } else if word == "uninstall"@ {
        c is Uninstall
    } else if word == "status"@ {
        c is Status
    } else if word == "permission"@ {
        c is Permission
    } else if word == "help"@ || word == "--help"@ || word == "-h"@ {
        c is Help
    } else {
        c matches Command::Unknown { name } && name@ == word
    }
}

/// The command that the words ask for.
pub fn command(args: &Vec<String>) -> (r: Command)
    ensures
        is_command(vault::text_views(args@), r),
{
    let word: &str = if args.len() == 0 {
        "run"
    } else {
        args[0].as_str()
    };
    if begins_with(word, "chrome-extension://") {
        Command::Host { origin: owned(word) }
    } else if same_text(word, "run") {
        Command::Run
    } else if same_text(word, "install") {
        Command::Install
    } else if same_text(word, "uninstall") {
        Command::Uninstall
    } else if same_text(word, "status") {
        Command::Status
    } else if same_text(word, "permission") {
        Command::Permission
    } else if same_text(word, "help") || same_text(word, "--help") || same_text(word, "-h") {
        Command::Help
    } else {
        Command::Unknown { name: owned(word) }
    }
}

/// The first of the words that is `--vault`, or their number if none is.
pub open spec fn vault_flag(args: Seq<Seq<char>>, from: int) -> int
    decreases args.len() - from,
{
    if from >= args.len() || args[from] == "--vault"@ {
        from
    } else {
        vault_flag(args, from + 1)
    }
}

/// `r` is the choice of the root: the word behind `--vault`, else the
/// environment's if it is not empty, else the default.
pub open spec fn is_root_choice(
    args: Seq<Seq<char>>,
    env: Option<Seq<char>>,
    r: Result<RootChoice, CliError>,
) -> bool {
    let i = vault_flag(args, 0);
    if i < args.len() {
        if i + 1 < args.len() {
            r matches Ok(RootChoice::At { path }) && path@ == args[i + 1]
        } else {
            r == Err::<RootChoice, CliError>(CliError::VaultNeedsPath)
        }
    } else {
        match env {
            Some(e) if e.len() > 0 => r matches Ok(RootChoice::At { path }) && path@ == e,
            _ => r matches Ok(RootChoice::Default),
        }
    }
}

/// The vault root: the flag `--vault`, else the environment's `TROVE_VAULT`,
/// else the default place. `args` are the words behind the command.
pub fn vault_root(args: &Vec<String>, env: Option<String>) -> (r: Result<RootChoice, CliError>)
    ensures
        is_root_choice(
            vault::text_views(args@),
            match env {
                Some(e) => Some(e@),
                None => None,
            },
            r,
        ),
{
    let ghost words = vault::text_views(args@);
    let mut i: usize = 0;
    while i < args.len()
        invariant
            i <= args@.len(),
            words == vault::text_views(args@),
            vault_flag(words, 0) == vault_flag(words, i as int),
        decreases args@.len() - i,
    {
        assert(words[i as int] == args@[i as int]@);
        if same_text(args[i].as_str(), "--vault") {
            if args.len() - i < 2 {
                return Err(CliError::VaultNeedsPath);
            }
            assert(words[i + 1] == args@[i + 1]@);
            return Ok(RootChoice::At { path: args[i + 1].clone() });
        }
        i = i + 1;
    }
    match env {
        Some(e) => {
            if e.as_str().is_empty() {
                Ok(RootChoice::Default)
            } else {
                Ok(RootChoice::At { path: e })
            }
        },
        None => Ok(RootChoice::Default),
    }
}

/// The flag goes before the environment: with a word behind `--vault` the
/// environment plays no part.
pub proof fn law_flag_beats_environment(
    args: Seq<Seq<char>>,
    a: Option<Seq<char>>,
    b: Option<Seq<char>>,
    r: Result<RootChoice, CliError>,
)
    requires
        args.contains("--vault"@),
    ensures
        is_root_choice(args, a, r) == is_root_choice(args, b, r),
{
    let k = args.index_of("--vault"@);
    lemma_flag(args, 0, k);
}

proof fn lemma_flag(args: Seq<Seq<char>>, from: int, k: int)
    requires
        0 <= from <= k < args.len(),
        args[k] == "--vault"@,
    ensures
        vault_flag(args, from) <= k,
    decreases k - from,
{
    if from < k && args[from] != "--vault"@ {
        lemma_flag(args, from + 1, k);
    }
}

/// Each word asks for its own command, and no other word asks for it. Without a
/// word the program runs; with an extension's origin it is the browser's host.
pub proof fn law_words_and_commands(args: Seq<Seq<char>>, c: Command)
    requires
        is_command(args, c),
    ensures
        args.len() == 0 ==> c is Run,
        args.len() > 0 ==> {
            let word = args[0];
            &&& c is Run <==> word == "run"@
            &&& c is Install <==> word == "install"@
            &&& c is Uninstall <==> word == "uninstall"@
            &&& c is Status <==> word == "status"@
            &&& c is Permission <==> word == "permission"@
            &&& c is Help <==> word == "help"@ || word == "--help"@ || word == "-h"@
            &&& c is Host <==> word.len() >= 19 && word.take(19) == "chrome-extension://"@
            &&& c matches Command::Host { origin } ==> origin@ == word
            &&& c matches Command::Unknown { name } ==> name@ == word
        },
{
    reveal_strlit("run");
    reveal_strlit("install");
    reveal_strlit("uninstall");
    reveal_strlit("status");
    reveal_strlit("permission");
    reveal_strlit("help");
    reveal_strlit("--help");
    reveal_strlit("-h");
    reveal_strlit("chrome-extension://");
    assert("chrome-extension://"@.len() == 19);
    assert("install"@.len() == 7 && "uninstall"@.len() == 9 && "status"@.len() == 6
        && "permission"@.len() == 10 && "help"@.len() == 4 && "--help"@.len() == 6 && "-h"@.len()
        == 2 && "run"@.len() == 3);
    assert("status"@[0] == 's' && "--help"@[0] == '-');
    if args.len() > 0 {
        let word = args[0];
        if word.len() >= 19 {
            assert(word.subrange(0, 19) =~= word.take(19));
        }
    }
}

/// The root is the word behind the first `--vault`. Without the flag it is the
/// environment's, and where that is missing or empty, the default.
pub proof fn law_root_by_flag_or_environment(
    args: Seq<Seq<char>>,
    env: Option<Seq<char>>,
    r: Result<RootChoice, CliError>,
    k: int,
)
    requires
        is_root_choice(args, env, r),
        0 <= k <= args.len(),
        forall|i: int| 0 <= i < k ==> #[trigger] args[i] != "--vault"@,
    ensures
        k + 1 < args.len() && args[k] == "--vault"@ ==> (r matches Ok(RootChoice::At { path })
            && path@ == args[k + 1]),
        k + 1 == args.len() && args[k] == "--vault"@ ==> r == Err::<RootChoice, CliError>(
            CliError::VaultNeedsPath,
        ),
        k == args.len() && (env matches Some(e) && e.len() > 0) ==> (r matches Ok(
            RootChoice::At { path },
        ) && path@ == env->0),
        k == args.len() && (env is None || (env->0).len() == 0) ==> (r matches Ok(
            RootChoice::Default,
        )),
{
    lemma_no_flag(args, 0, k);
}

proof fn lemma_no_flag(args: Seq<Seq<char>>, from: int, k: int)
    requires
        0 <= from <= k <= args.len(),
        forall|i: int| 0 <= i < k ==> #[trigger] args[i] != "--vault"@,
    ensures
        vault_flag(args, from) == vault_flag(args, k),
    decreases k - from,
{
    if from < k {
        lemma_no_flag(args, from + 1, k);
    }
}

} // verus!
