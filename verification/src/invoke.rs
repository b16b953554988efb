//! What is decided before a formatter runs: the name of the scratch file and
//! the arguments on the command line.

use crate::settings::{Lang, LangView};
use vstd::prelude::*;
use vstd::string::*;

verus! {

/// Name of the scratch file: the title where there is one, else `tmp_code`
/// followed by the descriptor's extension in leading-dot form, if it has one.
pub open spec fn scratch_name(lang: LangView, title: Option<Seq<char>>) -> Seq<char> {
    match title {
        Some(t) => t,
        None => match lang.ext() {
            Some(ext) => "tmp_code"@ + ext,
            None => "tmp_code"@,
        },
    }
}

/// The arguments of the formatter's command line: the scratch file's path,
/// then the descriptor's extra arguments in their order.
pub open spec fn arguments(lang: LangView, file_path: Seq<char>) -> Seq<Seq<char>> {
    match lang.args {
        Some(extra) => seq![file_path] + extra,
        None => seq![file_path],
    }
}

/// Chooses the name of the scratch file for one formatter run.
pub fn scratch_file_name(lang: &Lang, title: Option<String>) -> (name: String)
    ensures
        name@ == scratch_name(lang@, title.deep_view()),
{
    match title {
        Some(t) => t,
        None => match lang.ext() {
            Some(ext) => String::from_str("tmp_code").concat(ext.as_str()),
            None => String::from_str("tmp_code"),
        },
    }
}

/// Builds the argument list for one formatter run on the file at `file_path`.
pub fn command_args(lang: &Lang, file_path: &String) -> (args: Vec<String>)
    ensures
        args.deep_view() == arguments(lang@, file_path@),
{
    let mut args: Vec<String> = Vec::new();
    args.push(file_path.clone());
    assert(args.deep_view() =~= seq![file_path@]);
    match lang.args() {
        Some(extra) => {
            let mut i: usize = 0;
            while i < extra.len()
                invariant
                    i <= extra.len(),
                    extra.deep_view() == lang@.args->0,
                    args.deep_view() == seq![file_path@] + extra.deep_view().take(i as int),
                decreases extra.len() - i,
            {
                let ghost before = args.deep_view();
                args.push(extra[i].clone());
                assert(args.deep_view() =~= before.push(extra[i as int]@));
                assert(extra.deep_view().take(i + 1) =~= extra.deep_view().take(i as int).push(
                    extra[i as int]@,
                ));
                i += 1;
            }
            assert(extra.deep_view().take(i as int) =~= extra.deep_view());
        },
        None => {},
    }
    args
}

} // verus!
