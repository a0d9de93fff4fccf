//! What a run prints: the banner, the summary rows, the plan, and the recap.

use crate::confirm::Prompt;
use crate::manifest::{FileEntry, Os};
use crate::measure::{self, gigabytes, human, megabytes};
use crate::number::{self, decimal, decimal_right_aligned};
use crate::plan::Plan;
use crate::text::{self, begins_with, chars_of, forward_slashes, pad_left, pad_right, repeat};
use vstd::prelude::*;
use vstd::string::*;

verus! {

/// A label of the summary, in a column of its own.
pub fn label(name: &str) -> (r: String)
    ensures
        r@ == text::padded_right(name@, 11),
{
    pad_right(name, 11)
}

/// "{files} files · {bytes} GB"
pub open spec fn amount_text(files: nat, bytes: nat) -> Seq<char> {
    number::dec(files) + " files · "@ + measure::gigabytes_text(bytes) + " GB"@
}

/// A number of files and how much is in them.
pub fn amount(files: u64, bytes: u64) -> (r: String)
    ensures
        r@ == amount_text(files as nat, bytes as nat),
{
    let mut r = decimal(files);
    r.append(" files · ");
    r.append(gigabytes(bytes).as_str());
    r.append(" GB");
    r
}

/// A channel and its version.
pub fn release(channel: &str, version: &str) -> (r: String)
    ensures
        r@ == channel@ + " · "@ + version@,
{
    let mut r = channel.to_owned();
    r.append(" · ");
    r.append(version);
    r
}

/// How many files of a plan are shown.
pub const SHOWN_FILES: usize = 40;

/// A file of a plan.
pub open spec fn file_line(entry: FileEntry) -> Seq<char> {
    entry.path@ + " ("@ + measure::megabytes_text(entry.size as nat) + " MB)"@
}

/// The files of a plan, as far as they are shown.
pub fn planned_files(plan: &Plan) -> (r: Vec<String>)
    ensures
        text::views(r@) == plan.to_download@.take(
            if plan.to_download@.len() < SHOWN_FILES {
                plan.to_download@.len() as int
            } else {
                SHOWN_FILES as int
            },
        ).map_values(|e: FileEntry| file_line(e)),
{
    let n: usize = if plan.to_download.len() < SHOWN_FILES { plan.to_download.len() } else { SHOWN_FILES };
    let mut r: Vec<String> = Vec::new();
    let mut i: usize = 0;
    assert(text::views(r@) =~= plan.to_download@.take(0).map_values(|e: FileEntry| file_line(e)));
    while i < n
        invariant
            i <= n <= plan.to_download@.len(),
            text::views(r@) == plan.to_download@.take(i as int).map_values(|e: FileEntry| file_line(e)),
        decreases n - i,
    {
        let entry = &plan.to_download[i];
        let mut line = entry.path.clone();
        line.append(" (");
        line.append(megabytes(entry.size).as_str());
        line.append(" MB)");
        let ghost before = text::views(r@);
        let ghost shown = line@;
        r.push(line);
        i += 1;
        assert(text::views(r@) =~= before.push(shown));
        assert(text::views(r@) =~= plan.to_download@.take(i as int).map_values(|e: FileEntry| file_line(e)));
    }
    r
}

/// What is said of the files of a plan that are not shown.
pub fn planned_rest(plan: &Plan) -> (r: Option<String>)
    ensures
        plan.to_download@.len() <= SHOWN_FILES ==> r is None,
        plan.to_download@.len() > SHOWN_FILES ==> (r matches Some(s) && s@ == "… and "@ + number::dec(
            (plan.to_download@.len() - SHOWN_FILES) as nat,
        ) + " more"@),
{
    if plan.to_download.len() > SHOWN_FILES {
        let mut r = "… and ".to_owned();
        r.append(decimal((plan.to_download.len() - SHOWN_FILES) as u64).as_str());
        r.append(" more");
        Some(r)
    } else {
        None
    }
}

/// What to ask before writing gigabytes. A fresh install and a resume are different decisions, so
/// they get different wording.
pub fn prompt_for(plan: &Plan, dir: String) -> (r: Prompt)
    requires
        plan.up_to_date <= usize::MAX,
    ensures
        plan.up_to_date == 0 ==> r == (Prompt::Fresh {
            dir,
            files: plan.to_download.len(),
            bytes: plan.bytes_to_download,
        }),
        plan.up_to_date > 0 ==> r == (Prompt::Resume {
            dir,
            files: plan.to_download.len(),
            bytes: plan.bytes_to_download,
            have: plan.up_to_date as usize,
        }),
{
    let files: usize = plan.to_download.len();
    if plan.up_to_date == 0 {
        Prompt::Fresh { dir, files, bytes: plan.bytes_to_download }
    } else {
        Prompt::Resume { dir, files, bytes: plan.bytes_to_download, have: plan.up_to_date as usize }
    }
}

/// What is said while the files on disk are looked at.
pub fn checking(verify: bool) -> (r: &'static str)
    ensures
        r@ == if verify {
            "Verifying every file (full hash check)…"@
        } else {
            "Checking local files…"@
        },
{
    if verify {
        "Verifying every file (full hash check)…"
    } else {
        "Checking local files…"
    }
}

/// What is said where nothing is missing.
pub fn up_to_date() -> (r: &'static str)
    ensures
        r@ == "✓ Everything is up to date."@,
{
    "✓ Everything is up to date."
}

/// What is said after a refusal.
pub fn cancelled() -> (r: &'static str)
    ensures
        r@ == "Cancelled — nothing was downloaded."@,
{
    "Cancelled — nothing was downloaded."
}

/// Whether a character separates the components of a path.
pub open spec fn is_separator(c: char, os: Os) -> bool {
    c == '/' || (os == Os::Windows && c == '\\')
}

/// Whether a Windows path starts with a drive.
pub open spec fn has_drive(path: Seq<char>) -> bool {
    path.len() >= 2 && path[1] == ':' && ('a' <= path[0] <= 'z' || 'A' <= path[0] <= 'Z')
}

/// Whether the path of `name` below `dir` is written by putting one behind the other. On Windows
/// it is not where the name has a root or a drive of its own, or the directory is verbatim; such a
/// path can only be named as a whole, without a directory.
pub open spec fn is_written_below(dir: Seq<char>, name: Seq<char>, os: Os) -> bool {
    ||| dir.len() == 0
    ||| os != Os::Windows
    ||| !(name.len() > 0 && is_separator(name[0], os)) && !has_drive(name) && !text::starts_with(dir, "\\\\?\\"@)
}

/// How the path of `name`, seen from the directory `dir`, is written, with forward slashes. A name
/// that starts at the root stands for itself, and so does one without a directory. A directory
/// that ends in a separator, or is nothing but a drive, is not followed by another.
pub open spec fn place_text(dir: Seq<char>, name: Seq<char>, os: Os) -> Seq<char> {
    let d = text::replaced(dir, '\\', '/');
    let n = text::replaced(name, '\\', '/');
    if dir.len() == 0 || (name.len() > 0 && name[0] == '/') {
        n
    } else if is_separator(dir.last(), os) || (os == Os::Windows && dir.len() == 2 && has_drive(dir)) {
        d + n
    } else {
        d + "/"@ + n
    }
}

fn separates(c: char, os: Os) -> (r: bool)
    ensures
        r == is_separator(c, os),
{
    if let Os::Windows = os {
        c == '/' || c == '\\'
    } else {
        c == '/'
    }
}

fn starts_with_drive(path: &Vec<char>) -> (r: bool)
    ensures
        r == has_drive(path@),
{
    path.len() >= 2 && path[1] == ':' && (('a' <= path[0] && path[0] <= 'z') || ('A' <= path[0] && path[0] <= 'Z'))
}

/// Whether the path of `name` below `dir` is written by putting one behind the other.
pub fn written_below(dir: &str, name: &str, os: Os) -> (r: bool)
    ensures
        r == is_written_below(dir@, name@, os),
{
    if dir.unicode_len() == 0 {
        return true;
    }
    if let Os::Windows = os {
        let n = chars_of(name);
        !(n.len() > 0 && separates(n[0], os)) && !starts_with_drive(&n) && !begins_with(dir, "\\\\?\\")
    } else {
        true
    }
}

/// The path of `name`, seen from the directory `dir`, with forward slashes.
pub fn place(dir: &str, name: &str, os: Os) -> (r: String)
    requires
        is_written_below(dir@, name@, os),
    ensures
        r@ == place_text(dir@, name@, os),
{
    let d = chars_of(dir);
    let n = chars_of(name);
    if d.len() == 0 || (n.len() > 0 && n[0] == '/') {
        return forward_slashes(name);
    }
    let mut r = forward_slashes(dir);
    let only_drive: bool = if let Os::Windows = os {
        d.len() == 2 && starts_with_drive(&d)
    } else {
        false
    };
    if !separates(d[d.len() - 1], os) && !only_drive {
        r.append("/");
    }
    r.append(forward_slashes(name).as_str());
    r
}

/// The error of a launch where the command `cmd` is not in the install directory.
pub fn game_not_found(install_dir: &str, cmd: &str, os: Os) -> (r: String)
    requires
        is_written_below(install_dir@, cmd@, os),
    ensures
        r@ == "game executable not found: "@ + place_text(install_dir@, cmd@, os),
{
    "game executable not found: ".to_owned().concat(place(install_dir, cmd, os).as_str())
}

/// What a launch was about when the system refused it.
pub fn launch_context(install_dir: &str, cmd: &str, os: Os) -> (r: String)
    requires
        is_written_below(install_dir@, cmd@, os),
    ensures
        r@ == "spawn "@ + place_text(install_dir@, cmd@, os),
{
    "spawn ".to_owned().concat(place(install_dir, cmd, os).as_str())
}

/// How many failed files are named.
pub const SHOWN_FAILURES: usize = 20;

/// The failed files that are named, each with its error.
pub fn failure_lines(failed: &Vec<(String, String)>) -> (r: Vec<String>)
    ensures
        text::views(r@) == failed@.take(
            if failed@.len() < SHOWN_FAILURES {
                failed@.len() as int
            } else {
                SHOWN_FAILURES as int
            },
        ).map_values(|f: (String, String)| f.0@ + ": "@ + f.1@),
{
    let n: usize = if failed.len() < SHOWN_FAILURES { failed.len() } else { SHOWN_FAILURES };
    let mut r: Vec<String> = Vec::new();
    let mut i: usize = 0;
    assert(text::views(r@) =~= failed@.take(0).map_values(|f: (String, String)| f.0@ + ": "@ + f.1@));
    while i < n
        invariant
            i <= n <= failed@.len(),
            text::views(r@) == failed@.take(i as int).map_values(|f: (String, String)| f.0@ + ": "@ + f.1@),
        decreases n - i,
    {
        let mut line = failed[i].0.clone();
        line.append(": ");
        line.append(failed[i].1.as_str());
        let ghost before = text::views(r@);
        let ghost shown = line@;
        r.push(line);
        i += 1;
        assert(text::views(r@) =~= before.push(shown));
        assert(text::views(r@) =~= failed@.take(i as int).map_values(|f: (String, String)| f.0@ + ": "@ + f.1@));
    }
    r
}

/// The number of failed files.
pub fn failure_count(n: u64) -> (r: String)
    ensures
        r@ == number::dec(n as nat) + " file(s) FAILED:"@,
{
    decimal(n).concat(" file(s) FAILED:")
}

/// The error of a download that did not succeed for all files.
pub fn download_error(n: u64) -> (r: String)
    ensures
        r@ == number::dec(n as nat) + " download(s) failed — re-run to resume/repair"@,
{
    decimal(n).concat(" download(s) failed — re-run to resume/repair")
}

/// What is said after a download.
pub fn downloaded(n: u64) -> (r: String)
    ensures
        r@ == "✓ Downloaded "@ + number::dec(n as nat) + " file(s)."@,
{
    let mut r = "✓ Downloaded ".to_owned();
    r.append(decimal(n).as_str());
    r.append(" file(s).");
    r
}

/// What is said after deleting retired files; nothing where there were none.
pub fn pruned(n: u64) -> (r: Option<String>)
    ensures
        n == 0 ==> r is None,
        n > 0 ==> (r matches Some(s) && s@ == "✓ Removed "@ + number::dec(n as nat) + " obsolete file(s)."@),
{
    if n == 0 {
        return None;
    }
    let mut r = "✓ Removed ".to_owned();
    r.append(decimal(n).as_str());
    r.append(" obsolete file(s).");
    Some(r)
}

/// Width of the bars in the recap.
pub const BAR_WIDTH: usize = 24;

/// The share of `done` in `total` in whole percent; all of it where there was nothing to do.
pub open spec fn share(done: nat, total: nat) -> nat {
    if total > 0 {
        done * 100 / total
    } else {
        100
    }
}

/// How much of a bar is filled.
pub open spec fn bar_filled(pct: nat) -> nat {
    24 * pct / 100
}

/// A row of the recap.
#[derive(Debug)]
pub struct BreakdownRow {
    pub name: String,
    pub bar: String,
    pub percent: String,
    pub sizes: String,
}

/// A row of the per-content-type recap that is printed after the live view is gone.
pub fn breakdown_row(name: &str, done: u64, total: u64) -> (r: BreakdownRow)
    requires
        total > 0 ==> done * 100 <= u64::MAX,
        24 * share(done as nat, total as nat) <= u64::MAX,
        bar_filled(share(done as nat, total as nat)) <= 24,
    ensures
        r.name@ == text::padded_right(name@, 11),
        r.bar@ == text::repeated("━"@, bar_filled(share(done as nat, total as nat))) + text::repeated(
            "─"@,
            (24 - bar_filled(share(done as nat, total as nat))) as nat,
        ),
        r.percent@ == text::padded_left(number::dec(share(done as nat, total as nat)), 3) + "%"@,
        r.sizes@ == text::padded_left(measure::human_text(done as nat), 10) + " / "@ + text::padded_left(
            measure::human_text(total as nat),
            10,
        ),
{
    let pct: u64 = if total > 0 { done * 100 / total } else { 100 };
    let filled: usize = (BAR_WIDTH as u64 * pct / 100) as usize;
    let mut bar = repeat("━", filled);
    bar.append(repeat("─", BAR_WIDTH - filled).as_str());
    let mut sizes = pad_left(human(done).as_str(), 10);
    sizes.append(" / ");
    sizes.append(pad_left(human(total).as_str(), 10).as_str());
    BreakdownRow { name: pad_right(name, 11), bar, percent: decimal_right_aligned(pct, 3).concat("%"), sizes }
}

/// A share is at most the whole, so that a bar is never longer than its room.
pub proof fn law_share_is_a_percentage(done: nat, total: nat)
    requires
        done <= total,
    ensures
        share(done, total) <= 100,
        bar_filled(share(done, total)) <= 24,
{
    if total > 0 {
        assert(done * 100 / total <= 100) by (nonlinear_arith)
            requires
                done <= total,
                total > 0,
        ;
    }
}

/// Width of the banner.
pub const BANNER_WIDTH: usize = 74;

/// The upper or lower edge of the banner, between its corners.
pub fn banner_edge(left: &str, right: &str) -> (r: String)
    ensures
        r@ == left@ + text::repeated("─"@, 72) + right@,
{
    let mut r = left.to_owned();
    r.append(repeat("─", BANNER_WIDTH - 2).as_str());
    r.append(right);
    r
}

/// A line of the banner, between its sides.
pub fn banner_row(w: usize, content: &str) -> (r: String)
    requires
        w >= 2,
    ensures
        r@ == text::padded_right("  "@ + content@, (w - 2) as nat),
{
    pad_right("  ".to_owned().concat(content).as_str(), w - 2)
}

/// A command's arguments, one behind the other.
pub open spec fn words(list: Seq<Seq<char>>) -> Seq<char>
    decreases list.len(),
{
    if list.len() == 0 {
        Seq::empty()
    } else if list.len() == 1 {
        list[0]
    } else {
        words(list.drop_last()) + " "@ + list.last()
    }
}

/// A command's arguments, one behind the other.
pub fn joined_args(args: &Vec<String>) -> (r: String)
    ensures
        r@ == words(text::views(args@)),
{
    let ghost list = text::views(args@);
    let mut r = String::new();
    let mut i: usize = 0;
    assert(list.take(0) =~= Seq::empty());
    while i < args.len()
        invariant
            i <= args.len(),
            list == text::views(args@),
            r@ == words(list.take(i as int)),
        decreases args.len() - i,
    {
        let ghost before = r@;
        let ghost next = list.take(i + 1);
        assert(next.drop_last() =~= list.take(i as int));
        assert(next.last() == args@[i as int]@);
        if i > 0 {
            r.append(" ");
        }
        r.append(args[i].as_str());
        i += 1;
        if i == 1 {
            assert(before =~= Seq::empty());
            assert(next[0] == next.last());
        }
        assert(r@ =~= words(next));
    }
    assert(list.take(i as int) =~= list);
    r
}

/// A share in whole percent is cut off: it is the largest whole number of hundredths that was reached.
pub proof fn law_share_is_cut_off(done: nat, total: nat)
    ensures
        total > 0 ==> share(done, total) * total <= done * 100 < (share(done, total) + 1) * total,
        total == 0 ==> share(done, total) == 100,
        total > 0 ==> share(total, total) == 100,
{
    if total > 0 {
        vstd::arithmetic::div_mod::lemma_fundamental_div_mod((done * 100) as int, total as int);
        vstd::arithmetic::div_mod::lemma_mod_bound((done * 100) as int, total as int);
        let q = share(done, total);
        assert(q * total == total * q && (q + 1) * total == total * q + total) by (nonlinear_arith);
        vstd::arithmetic::div_mod::lemma_div_multiples_vanish(100, total as int);
        assert(total * 100 == 100 * total);
    }
}

/// A bar has the width of its column, filled in proportion: not at all for nothing, all of it for everything.
pub proof fn law_bar_is_filled_in_proportion(name: &str, done: u64, total: u64, row: BreakdownRow)
    requires
        call_ensures(breakdown_row, (name, done, total), row),
        done <= total,
    ensures
        ({
            let filled = 24 * share(done as nat, total as nat) / 100;
            row.bar@ == Seq::new(filled, |i: int| '━') + Seq::new((24 - filled) as nat, |i: int| '─')
        }),
        row.bar@.len() == 24,
        row.name@ == text::padded_right(name@, 11),
{
    law_share_is_a_percentage(done as nat, total as nat);
    reveal_strlit("━");
    reveal_strlit("─");
    assert("━"@ =~= seq!['━']);
    assert("─"@ =~= seq!['─']);
    let filled = bar_filled(share(done as nat, total as nat));
    text::law_repetition('━', filled);
    text::law_repetition('─', (24 - filled) as nat);
}

/// A plan is shown from its beginning, file by file, up to forty of them; of the rest the number is told.
pub proof fn law_plan_is_shown_from_its_beginning(plan: Plan, shown: Vec<String>, rest: Option<String>, i: int)
    requires
        call_ensures(planned_files, (&plan,), shown),
        call_ensures(planned_rest, (&plan,), rest),
        0 <= i < shown@.len(),
    ensures
        shown@.len() <= plan.to_download@.len(),
        shown@.len() == plan.to_download@.len() || shown@.len() == 40,
        shown@.len() <= 40,
        shown@[i]@ == plan.to_download@[i].path@ + " ("@ + measure::megabytes_text(plan.to_download@[i].size as nat)
            + " MB)"@,
        rest is None <==> shown@.len() == plan.to_download@.len(),
        rest matches Some(text) ==> text@ == "… and "@ + number::dec((plan.to_download@.len() - 40) as nat) + " more"@,
{
    let list = text::views(shown@);
    assert(list.len() == shown@.len());
    assert(list[i] == shown@[i]@);
}

/// Failures are named from the first, up to twenty of them, each with its error.
pub proof fn law_failures_are_shown(failed: Vec<(String, String)>, shown: Vec<String>, i: int)
    requires
        call_ensures(failure_lines, (&failed,), shown),
        0 <= i < shown@.len(),
    ensures
        shown@.len() == failed@.len() || (shown@.len() == 20 && failed@.len() > 20),
        shown@.len() <= 20,
        shown@[i]@ == failed@[i].0@ + ": "@ + failed@[i].1@,
{
    let list = text::views(shown@);
    assert(list.len() == shown@.len());
    assert(list[i] == shown@[i]@);
}

/// An install of which nothing is there yet is asked about as a fresh one, and any other as one that goes on; either
/// way with what is to be fetched.
pub proof fn law_question_fits_the_plan(plan: Plan, dir: String, prompt: Prompt)
    requires
        call_ensures(prompt_for, (&plan, dir), prompt),
        plan.up_to_date <= usize::MAX,
    ensures
        prompt is Fresh <==> plan.up_to_date == 0,
        prompt matches Prompt::Fresh { dir: d, files, bytes } ==> d == dir && files == plan.to_download@.len() && bytes
            == plan.bytes_to_download,
        prompt matches Prompt::Resume { dir: d, files, bytes, have } ==> d == dir && files == plan.to_download@.len()
            && bytes == plan.bytes_to_download && have == plan.up_to_date,
{
}

/// Arguments stand one behind the other, in their order, with a space between each and the next.
pub proof fn law_arguments_are_joined(list: Seq<Seq<char>>, word: Seq<char>)
    ensures
        list.len() > 0 ==> words(list.push(word)) == words(list) + " "@ + word,
        words(seq![word]) == word,
        words(Seq::empty()) == Seq::<char>::empty(),
{
    assert(list.push(word).drop_last() =~= list);
}

/// A name below a directory is written behind it with one slash between them; a name from the root is written by itself,
/// and so is one without a directory.
pub proof fn law_places_are_written_with_one_slash(dir: Seq<char>, name: Seq<char>, os: Os)
    requires
        !dir.contains('\\'),
        !name.contains('\\'),
        name.len() > 0,
        name[0] != '/',
        dir.len() > 0,
        !(os is Windows && dir.len() == 2 && has_drive(dir)),
    ensures
        dir.last() != '/' ==> place_text(dir, name, os) == dir.push('/') + name,
        dir.last() == '/' ==> place_text(dir, name, os) == dir + name,
        place_text(dir, seq!['/'] + name, os) == seq!['/'] + name,
        place_text(Seq::empty(), name, os) == name,
{
    reveal_strlit("/");
    lemma_no_backslash(dir);
    lemma_no_backslash(name);
    let rooted = seq!['/'] + name;
    if rooted.contains('\\') {
        let k = choose|k: int| 0 <= k < rooted.len() && rooted[k] == '\\';
        assert(name.contains(name[k - 1]));
    }
    lemma_no_backslash(rooted);
    assert(dir.contains(dir.last()));
    assert(dir.push('/') + name =~= dir + "/"@ + name);
}

proof fn lemma_no_backslash(s: Seq<char>)
    requires
        !s.contains('\\'),
    ensures
        text::replaced(s, '\\', '/') == s,
{
    assert forall|i: int| 0 <= i < s.len() implies text::replaced(s, '\\', '/')[i] == s[i] by {
        assert(s.contains(s[i]));
    }
    assert(text::replaced(s, '\\', '/') =~= s);
}

/// What is said of amounts and of how a run went: the numbers are those that were given.
pub proof fn law_reports_say_what_happened(
    n: u64,
    bytes: u64,
    said: (String, String, String, String, Option<String>),
)
    requires
        call_ensures(amount, (n, bytes), said.0),
        call_ensures(failure_count, (n,), said.1),
        call_ensures(download_error, (n,), said.2),
        call_ensures(downloaded, (n,), said.3),
        call_ensures(pruned, (n,), said.4),
    ensures
        said.0@ == number::dec(n as nat) + " files · "@ + measure::gigabytes_text(bytes as nat) + " GB"@,
        said.1@ == number::dec(n as nat) + " file(s) FAILED:"@,
        said.2@ == number::dec(n as nat) + " download(s) failed — re-run to resume/repair"@,
        said.3@ == "✓ Downloaded "@ + number::dec(n as nat) + " file(s)."@,
        said.4 is None <==> n == 0,
        said.4 matches Some(text) ==> text@ == "✓ Removed "@ + number::dec(n as nat) + " obsolete file(s)."@,
{
}

/// A launch that is refused is reported with the place of the game.
pub proof fn law_launch_errors_name_the_place(dir: &str, cmd: &str, os: Os, said: (String, String, String), below: bool)
    requires
        call_ensures(place, (dir, cmd, os), said.0),
        call_ensures(game_not_found, (dir, cmd, os), said.1),
        call_ensures(launch_context, (dir, cmd, os), said.2),
        call_ensures(written_below, (dir, cmd, os), below),
    ensures
        said.0@ == place_text(dir@, cmd@, os),
        said.1@ == "game executable not found: "@ + said.0@,
        said.2@ == "spawn "@ + said.0@,
        !(os is Windows) || dir@.len() == 0 ==> below,
        os is Windows && dir@.len() > 0 && cmd@.len() > 0 && (cmd@[0] == '/' || cmd@[0] == '\\') ==> !below,
        os is Windows && dir@.len() > 0 && has_drive(cmd@) ==> !below,
{
}

/// Arguments and the other lines of the report, as they are carried out.
pub proof fn law_report_lines_as_they_are_carried_out(
    args: Vec<String>,
    name: &str,
    version: &str,
    said: (String, String, String),
)
    requires
        call_ensures(joined_args, (&args,), said.0),
        call_ensures(label, (name,), said.1),
        call_ensures(release, (name, version), said.2),
    ensures
        said.0@ == words(text::views(args@)),
        said.1@ == text::padded_right(name@, 11),
        said.2@ == name@ + " · "@ + version@,
{
}

} // verus!
