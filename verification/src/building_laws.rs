//! What a build does, told by its settings and by the files and cases of the books alone.
use crate::building::{
    asked_options, concurrency, encoder_for, first_choice, output_path, plan_fits, remaining,
    settings_fit, start_of, to_convert, to_merge, wanted, BatchSettings, BuildOptions, BuildPlan,
    EncoderChoice, RootFinding,
};
use crate::chapter_file_laws::{increasing, lemma_last_position};
use crate::commands::BuildArgs;
use crate::config::Config;
use crate::scanner::{BookCase, BookFolder};
use crate::text::{decimal_text, lowercase, unsigned_value};
use crate::text_laws::{numbers_are_read_as_written, numbers_are_written_without_leading_zeros};
use std::path::PathBuf;
use vstd::prelude::*;

verus! {

// ---------------------------------------------------------------------------
// Which books
// ---------------------------------------------------------------------------

/// Where the elements of a filtered list come from.
pub proof fn lemma_filter_positions<A>(s: Seq<A>, keep: spec_fn(A) -> bool) -> (at: Seq<int>)
    ensures
        increasing(at),
        at.len() == s.filter(keep).len(),
        forall|k: int|
            0 <= k < at.len() ==> 0 <= #[trigger] at[k] < s.len() && s.filter(keep)[k] == s[at[k]],
        forall|i: int| 0 <= i < s.len() ==> (#[trigger] at.contains(i) <==> keep(s[i])),
    decreases s.len(),
{
    reveal(Seq::filter);
    if s.len() == 0 {
        Seq::empty()
    } else {
        let before = s.drop_last();
        let n = s.len() - 1;
        let at = lemma_filter_positions(before, keep);
        lemma_last_position(at, n);
        assert(forall|i: int| 0 <= i < n ==> #[trigger] s[i] == before[i]);
        if keep(s.last()) {
            let all = at.push(n);
            assert forall|k: int| 0 <= k < all.len() implies 0 <= #[trigger] all[k] < s.len()
                && s.filter(keep)[k] == s[all[k]] by {
                if k < at.len() {
                    assert(all[k] == at[k]);
                }
            }
            assert forall|i: int| 0 <= i < s.len() implies (#[trigger] all.contains(i) <==> keep(
                s[i],
            )) by {
                if i < n {
                    assert(at.contains(i) <==> keep(before[i]));
                }
            }
            all
        } else {
            assert forall|i: int| 0 <= i < s.len() implies (#[trigger] at.contains(i) <==> keep(
                s[i],
            )) by {
                if i < n {
                    assert(at.contains(i) <==> keep(before[i]));
                }
            }
            at
        }
    }
}

/// The books that are left are found books, in their order and unchanged. Where finished books are
/// left out, a book is left if and only if it has no M4B file, or is of case E, or merges are asked
/// for and it is a book of case C with several M4B files; otherwise every book is left.
pub proof fn books_without_m4b_files_are_left(
    books: Seq<BookFolder>,
    skip: bool,
    merge_m4b: bool,
) -> (at: Seq<int>)
    ensures
        increasing(at),
        at.len() == remaining(books, skip, merge_m4b).len(),
        forall|k: int|
            0 <= k < at.len() ==> 0 <= #[trigger] at[k] < books.len() && remaining(
                books,
                skip,
                merge_m4b,
            )[k] == books[at[k]],
        forall|i: int|
            0 <= i < books.len() ==> (#[trigger] at.contains(i) <==> !skip
                || books[i].m4b_files@.len() == 0 || books[i].case == BookCase::E || merge_m4b
                && books[i].m4b_files@.len() > 1 && books[i].case == BookCase::C),
{
    if skip {
        lemma_filter_positions(books, |b: BookFolder| wanted(b, merge_m4b))
    } else {
        let at = Seq::new(books.len(), |i: int| i);
        assert forall|i: int| 0 <= i < books.len() implies #[trigger] at.contains(i) by {
            assert(at[i] == i);
        }
        at
    }
}

/// The books that a plan lists or builds.
pub open spec fn books_of(plan: BuildPlan) -> Seq<BookFolder> {
    match plan {
        BuildPlan::DryRun(books) => books@,
        BuildPlan::Process(books) => books@,
        _ => Seq::empty(),
    }
}

/// A plan holds the found books that there is something to do for, in their order, with their
/// paths, names and files. Unless `skip_existing` is set and `force` is not, that is every book;
/// otherwise it is every book without an M4B file, of whatever case, every book of case E, and,
/// under `merge_m4b`, every book of case C with several M4B files, which becomes one of case E.
/// A dry run lists them, any other run builds them, and without one there is nothing to do.
pub proof fn a_plan_holds_the_books_to_build(
    books: Seq<BookFolder>,
    options: BuildOptions,
    plan: BuildPlan,
) -> (at: Seq<int>)
    requires
        plan_fits(books, options, plan),
    ensures
        increasing(at),
        forall|i: int|
            0 <= i < books.len() ==> (#[trigger] at.contains(i) <==> !options.skip_existing
                || options.force || books[i].m4b_files@.len() == 0 || books[i].case == BookCase::E
                || options.merge_m4b && books[i].m4b_files@.len() > 1 && books[i].case
                == BookCase::C),
        books_of(plan).len() == at.len(),
        forall|k: int|
            0 <= k < at.len() ==> {
                let found = books[#[trigger] at[k]];
                let planned = books_of(plan)[k];
                &&& 0 <= at[k] < books.len()
                &&& planned.path == found.path
                &&& planned.name == found.name
                &&& planned.mp3_files == found.mp3_files
                &&& planned.m4b_files == found.m4b_files
                &&& planned.cue_file == found.cue_file
                &&& planned.cover_file == found.cover_file
                &&& planned.case == if options.merge_m4b && found.m4b_files@.len() > 1 && found.case
                    == BookCase::C {
                    BookCase::E
                } else {
                    found.case
                }
            },
        plan is NothingFound <==> books.len() == 0,
        plan is AllProcessed <==> books.len() > 0 && at.len() == 0,
        plan is DryRun <==> at.len() > 0 && options.dry_run,
        plan is Process <==> at.len() > 0 && !options.dry_run,
{
    let skip = options.skip_existing && !options.force;
    let at = books_without_m4b_files_are_left(books, skip, options.merge_m4b);
    let left = remaining(books, skip, options.merge_m4b);
    assert forall|k: int| 0 <= k < at.len() implies {
        let found = books[#[trigger] at[k]];
        let planned = books_of(plan)[k];
        &&& 0 <= at[k] < books.len()
        &&& planned.path == found.path
        &&& planned.name == found.name
        &&& planned.mp3_files == found.mp3_files
        &&& planned.m4b_files == found.m4b_files
        &&& planned.cue_file == found.cue_file
        &&& planned.cover_file == found.cover_file
        &&& planned.case == if options.merge_m4b && found.m4b_files@.len() > 1 && found.case
            == BookCase::C {
            BookCase::E
        } else {
            found.case
        }
    } by {
        assert(left[k] == books[at[k]]);
    }
    if books.len() == 0 && at.len() > 0 {
        assert(0 <= at[0] < books.len());
    }
    at
}

/// The books to merge are those of case E and the books to convert are all others, each in their
/// order and with what belongs to them.
pub proof fn books_are_merged_by_their_case<T>(books: Seq<(BookFolder, T)>) -> (at: (
    Seq<int>,
    Seq<int>,
))
    ensures
        increasing(at.0),
        increasing(at.1),
        at.0.len() == to_merge(books).len(),
        at.1.len() == to_convert(books).len(),
        forall|k: int|
            0 <= k < at.0.len() ==> 0 <= #[trigger] at.0[k] < books.len() && to_merge(books)[k]
                == books[at.0[k]],
        forall|k: int|
            0 <= k < at.1.len() ==> 0 <= #[trigger] at.1[k] < books.len() && to_convert(books)[k]
                == books[at.1[k]],
        forall|i: int|
            0 <= i < books.len() ==> (#[trigger] at.0.contains(i) <==> books[i].0.case
                == BookCase::E),
        forall|i: int|
            0 <= i < books.len() ==> (#[trigger] at.1.contains(i) <==> books[i].0.case
                != BookCase::E),
{
    (
        lemma_filter_positions(books, |b: (BookFolder, T)| b.0.case == BookCase::E),
        lemma_filter_positions(books, |b: (BookFolder, T)| b.0.case != BookCase::E),
    )
}

// ---------------------------------------------------------------------------
// Where and how
// ---------------------------------------------------------------------------

/// A directory on the command line goes before one in the configuration.
pub proof fn the_command_line_goes_first(path: PathBuf, configured: Option<PathBuf>)
    ensures
        first_choice(Some(path), configured) == Some(path),
        first_choice(None, configured) == configured,
{
}

/// A build leaves finished books out if the command line says so, or, where it says nothing, if the
/// configuration does; but never where the command line asks for force. Nothing but the command line
/// asks for merges or for a dry run.
pub proof fn a_build_follows_the_command_line(args: BuildArgs, config: Config)
    ensures
        ({
            let options = asked_options(args, config);
            &&& args.force ==> !options.skips()
            &&& !args.force && args.skip_existing == Some(true) ==> options.skips()
            &&& args.skip_existing == Some(false) ==> !options.skips()
            &&& !args.force && args.skip_existing is None ==> (options.skips()
                <==> config.processing.skip_existing)
            &&& options.merge_m4b == args.merge_m4b
            &&& options.dry_run == args.dry_run
        }),
{
}

/// A build starts at the directory that is named, or else at the current one if that is an
/// audiobook; it takes the directory for one audiobook where it is one.
pub proof fn a_build_starts_where_it_is_told(path: PathBuf, is_audiobook: bool)
    ensures
        start_of(RootFinding::Named { path, is_audiobook }) == Some((path, is_audiobook)),
        start_of(RootFinding::Current(Some(path))) == Some((path, true)),
        start_of(RootFinding::Current(None)) is None,
{
}

/// An output directory on the command line is used wherever the books come from. Without one the
/// books of a single folder go there, and the books of a library go there only where the
/// configuration says so.
pub proof fn books_go_where_they_are_told(root: PathBuf, out: PathBuf, configured: Seq<char>)
    ensures
        forall|auto_detected: bool|
            #[trigger] output_path(root, auto_detected, Some(out), configured) == Some(out),
        output_path(root, true, None, configured) == Some(root),
        configured == "same_as_source"@ ==> output_path(root, false, None, configured) == Some(root),
        configured != "same_as_source"@ ==> output_path(root, false, None, configured) is None,
{
}

/// An encoder on the command line is used whatever the configuration says; without one the
/// superseded setting decides where it is set, whatever name is configured; without either the
/// configured name decides, unless it is `auto` or is not known.
pub proof fn encoders_are_chosen_in_order<E>(
    encoder: E,
    superseded: Option<bool>,
    name: Seq<char>,
    configured: Option<E>,
)
    ensures
        encoder_for(Some(encoder), superseded, name, configured) == EncoderChoice::Named(encoder),
        encoder_for(None, Some(true), name, configured) == EncoderChoice::<E>::AppleSilicon,
        encoder_for(None, Some(false), name, configured) == EncoderChoice::<E>::Native,
        lowercase(name) == "auto"@ ==> encoder_for(None, None, name, configured)
            == EncoderChoice::<E>::Detect,
        lowercase(name) != "auto"@ ==> encoder_for(None, None, name, Some(encoder))
            == EncoderChoice::Named(encoder),
        encoder_for::<E>(None, None, name, None) == EncoderChoice::<E>::Detect,
{
}

/// A setting asks for the CPUs of the machine if it is `auto`, for the number that it writes, held
/// between one and the most, if it writes one, and for the fallback, held likewise, if it does not.
pub proof fn settings_ask_for_what_they_write(cpus: nat, fallback: nat, most: nat, n: nat)
    requires
        most >= 1,
        n <= usize::MAX,
    ensures
        concurrency("auto"@, cpus, fallback, most) == cpus,
        n == 0 ==> concurrency(decimal_text(n), cpus, fallback, most) == 1,
        1 <= n <= most ==> concurrency(decimal_text(n), cpus, fallback, most) == n,
        n > most ==> concurrency(decimal_text(n), cpus, fallback, most) == most,
        forall|setting: Seq<char>|
            setting != "auto"@ && unsigned_value(setting, usize::MAX as nat) is None
                ==> #[trigger] concurrency(setting, cpus, fallback, most) == if fallback == 0 {
                1
            } else if fallback > most {
                most as int
            } else {
                fallback as int
            },
{
    let d = decimal_text(n);
    numbers_are_written_without_leading_zeros(n);
    numbers_are_read_as_written(d, d, usize::MAX as nat);
    reveal_strlit("auto");
    assert("auto"@[0] == 'a');
    if d == "auto"@ {
        assert('0' <= d[0] <= '9');
    }
}

/// A batch uses as many workers as the command line says, or else the configuration; it keeps
/// temporary files if either says so; it encodes on all CPUs where that is automatic, and never on
/// more than sixteen at a time, or on thirty-two files of a book, where a number is asked for.
pub proof fn a_batch_follows_its_settings(
    args: BuildArgs,
    config: Config,
    cpus: nat,
    settings: BatchSettings,
    n: nat,
)
    requires
        settings_fit(args, config, cpus, settings),
        n <= usize::MAX,
    ensures
        args.parallel is Some ==> settings.workers == args.parallel->0,
        args.parallel is None ==> settings.workers == config.processing.parallel_workers,
        settings.keep_temp <==> args.keep_temp || config.processing.keep_temp_files,
        ({
            let text = config.performance.max_concurrent_encodes@;
            &&& text == "auto"@ ==> settings.max_concurrent == cpus
            &&& text == decimal_text(n) && 1 <= n <= 16 ==> settings.max_concurrent == n
            &&& text == decimal_text(n) && n > 16 ==> settings.max_concurrent == 16
            &&& text == decimal_text(n) && n == 0 ==> settings.max_concurrent == 1
            &&& text != "auto"@ && unsigned_value(text, usize::MAX as nat) is None && 1 <= cpus <= 16
                ==> settings.max_concurrent == cpus
            &&& text != "auto"@ && unsigned_value(text, usize::MAX as nat) is None && cpus > 16
                ==> settings.max_concurrent == 16
        }),
        ({
            let text = config.performance.max_concurrent_files_per_book@;
            &&& text == "auto"@ ==> settings.max_concurrent_files == cpus
            &&& text == decimal_text(n) && 1 <= n <= 32 ==> settings.max_concurrent_files == n
            &&& text == decimal_text(n) && n > 32 ==> settings.max_concurrent_files == 32
            &&& text == decimal_text(n) && n == 0 ==> settings.max_concurrent_files == 1
            &&& text != "auto"@ && unsigned_value(text, usize::MAX as nat) is None
                ==> settings.max_concurrent_files == 8
        }),
{
    settings_ask_for_what_they_write(cpus, cpus, 16, n);
    settings_ask_for_what_they_write(cpus, 8, 32, n);
}

} // verus!
