//! Which settings count, where the manifest is looked for, and which mirrors are used.
//!
//! Command line > launcher.toml > compiled-in default, for each setting independently.

use crate::paths::InstallPath;
use crate::install;
use crate::text::{self, after_mark, head_of, same, without_end};
use vstd::prelude::*;
use vstd::string::*;

verus! {

/// Baked-in fallback so a lone launcher works with no launcher.toml and no arguments.
pub const DEFAULT_MIRRORS: [&'static str; 1] = ["https://dl.proto.bar"];

/// Player-facing: printed verbatim in the header as "Release <channel> · <version>".
pub const DEFAULT_CHANNEL: &'static str = "alpha";

/// Parallel download workers where nothing else is asked for.
pub const DEFAULT_CONCURRENCY: usize = 8;

/// The directory that is asked for: on the command line, else in the launcher.toml next to the
/// launcher, else the launcher's own.
pub fn requested_dir(
    argument: Option<&InstallPath>,
    configured: Option<&InstallPath>,
    exe: Option<&InstallPath>,
) -> (r: InstallPath)
    ensures
        r@ == match install::view_of(argument) {
            Some(dir) => dir,
            None => match install::view_of(configured) {
                Some(dir) => dir,
                None => install::default_dir(install::view_of(exe)),
            },
        },
{
    match argument {
        Some(dir) => dir.clone(),
        None => match configured {
            Some(dir) => dir.clone(),
            None => install::default_install_dir(exe),
        },
    }
}

/// The release channel.
pub fn channel(argument: Option<&String>, configured: Option<&String>) -> (r: String)
    ensures
        r@ == match argument {
            Some(name) => name@,
            None => match configured {
                Some(name) => name@,
                None => DEFAULT_CHANNEL@,
            },
        },
{
    match argument {
        Some(name) => name.clone(),
        None => match configured {
            Some(name) => name.clone(),
            None => DEFAULT_CHANNEL.to_owned(),
        },
    }
}

/// The number of download workers, at least one.
pub fn concurrency(argument: Option<usize>, configured: Option<usize>) -> (r: usize)
    ensures
        ({
            let wanted = match argument {
                Some(n) => n,
                None => match configured {
                    Some(n) => n,
                    None => DEFAULT_CONCURRENCY,
                },
            };
            r == if wanted == 0 {
                1
            } else {
                wanted
            }
        }),
{
    let wanted: usize = match argument {
        Some(n) => n,
        None => match configured {
            Some(n) => n,
            None => DEFAULT_CONCURRENCY,
        },
    };
    if wanted == 0 {
        1
    } else {
        wanted
    }
}

/// A list, or the compiled-in mirrors in place of an empty one.
pub open spec fn or_default(list: Seq<Seq<char>>) -> Seq<Seq<char>> {
    if list.len() == 0 {
        seq![DEFAULT_MIRRORS@[0]@]
    } else {
        list
    }
}

/// Adds the texts of `more` to `list`.
fn extend(list: &mut Vec<String>, more: &Vec<String>)
    ensures
        text::views(final(list)@) == text::views(old(list)@) + text::views(more@),
{
    let ghost before = list@;
    let mut i: usize = 0;
    assert(text::views(list@) =~= text::views(before) + text::views(more@.take(0)));
    while i < more.len()
        invariant
            i <= more.len(),
            text::views(list@) == text::views(before) + text::views(more@.take(i as int)),
        decreases more.len() - i,
    {
        let ghost current = list@;
        list.push(more[i].clone());
        i += 1;
        assert(text::views(list@) =~= text::views(current).push(more@[i - 1]@));
        assert(text::views(list@) =~= text::views(before) + text::views(more@.take(i as int)));
    }
    assert(more@.take(i as int) =~= more@);
}

fn fall_back(list: &mut Vec<String>)
    ensures
        text::views(final(list)@) == or_default(text::views(old(list)@)),
{
    if list.len() == 0 {
        list.push(DEFAULT_MIRRORS[0].to_owned());
        assert(text::views(list@) =~= or_default(text::views(old(list)@)));
    }
}

/// Where to look for manifests: the mirrors of the command line, then those of launcher.toml; the
/// compiled-in ones where there are none.
pub fn manifest_bases(arguments: &Vec<String>, configured: &Vec<String>) -> (r: Vec<String>)
    ensures
        text::views(r@) == or_default(text::views(arguments@) + text::views(configured@)),
{
    let mut r: Vec<String> = Vec::new();
    extend(&mut r, arguments);
    extend(&mut r, configured);
    fall_back(&mut r);
    assert(Seq::<Seq<char>>::empty() + text::views(arguments@) =~= text::views(arguments@));
    r
}

/// A list without entries that repeat the one in front of them.
pub open spec fn without_repeats(list: Seq<Seq<char>>) -> Seq<Seq<char>>
    decreases list.len(),
{
    if list.len() <= 1 {
        list
    } else if list[list.len() - 2] == list.last() {
        without_repeats(list.drop_last())
    } else {
        without_repeats(list.drop_last()).push(list.last())
    }
}

/// The mirrors to download from: those of the command line and of launcher.toml, or the
/// compiled-in ones where there are none; after all of these, the manifest's own.
pub fn download_mirrors(arguments: &Vec<String>, configured: &Vec<String>, listed: &Vec<String>) -> (r: Vec<String>)
    ensures
        text::views(r@) == without_repeats(
            or_default(text::views(arguments@) + text::views(configured@)) + text::views(listed@),
        ),
{
    let mut all = manifest_bases(arguments, configured);
    extend(&mut all, listed);
    let ghost list = text::views(all@);
    let mut r: Vec<String> = Vec::new();
    let mut i: usize = 0;
    assert(text::views(r@) =~= without_repeats(list.take(0)));
    while i < all.len()
        invariant
            i <= all.len(),
            list == text::views(all@),
            text::views(r@) == without_repeats(list.take(i as int)),
        decreases all.len() - i,
    {
        let ghost next = list.take(i + 1);
        assert(next.drop_last() =~= list.take(i as int));
        assert(next.last() == all@[i as int]@);
        if i == 0 {
            r.push(all[0].clone());
            assert(text::views(r@) =~= next);
        } else {
            assert(next[i - 1] == all@[i - 1]@);
            if !same(all[i - 1].as_str(), all[i].as_str()) {
                let ghost before = text::views(r@);
                r.push(all[i].clone());
                assert(text::views(r@) =~= before.push(all@[i as int]@));
            }
        }
        i += 1;
    }
    assert(list.take(i as int) =~= list);
    r
}

/// Neighbours in the mirror list differ, so no mirror is asked twice in a row.
pub proof fn law_no_mirror_follows_itself(list: Seq<Seq<char>>, i: int)
    requires
        0 <= i < without_repeats(list).len() - 1,
    ensures
        without_repeats(list)[i] != without_repeats(list)[i + 1],
    decreases list.len(),
{
    lemma_without_repeats(list);
    if list.len() > 1 {
        let front = list.drop_last();
        lemma_without_repeats(front);
        if i < without_repeats(front).len() - 1 {
            law_no_mirror_follows_itself(front, i);
        }
    }
}

proof fn lemma_without_repeats(list: Seq<Seq<char>>)
    ensures
        list.len() > 0 ==> without_repeats(list).len() > 0 && without_repeats(list).last() == list.last(),
    decreases list.len(),
{
    if list.len() > 1 {
        lemma_without_repeats(list.drop_last());
    }
}

/// Dropping repeats loses no mirror and adds none.
pub proof fn law_no_mirror_is_lost(list: Seq<Seq<char>>, mirror: Seq<char>)
    ensures
        without_repeats(list).contains(mirror) <==> list.contains(mirror),
    decreases list.len(),
{
    if list.len() > 1 {
        let front = list.drop_last();
        law_no_mirror_is_lost(front, mirror);
        let kept = without_repeats(front);
        if list.contains(mirror) {
            let k = choose|k: int| 0 <= k < list.len() && list[k] == mirror;
            if k < list.len() - 1 {
                assert(front[k] == mirror);
            } else if list[list.len() - 2] == list.last() {
                assert(front[list.len() - 2] == mirror);
            } else {
                assert(without_repeats(list)[kept.len() as int] == mirror);
            }
            if kept.contains(mirror) {
                let j = choose|j: int| 0 <= j < kept.len() && kept[j] == mirror;
                assert(without_repeats(list)[j] == mirror);
            }
        }
        if without_repeats(list).contains(mirror) {
            let whole = without_repeats(list);
            let j = choose|j: int| 0 <= j < whole.len() && whole[j] == mirror;
            if j < kept.len() {
                assert(kept[j] == mirror);
                let k = choose|k: int| 0 <= k < front.len() && front[k] == mirror;
                assert(list[k] == mirror);
            } else {
                assert(list[list.len() - 1] == mirror);
            }
        }
    }
}

/// Where a channel's manifest lies on a mirror.
pub open spec fn manifest_address(base: Seq<char>, channel: Seq<char>) -> Seq<char> {
    text::trim_end(base, '/') + "/manifests/"@ + channel + ".json"@
}

/// Where a channel's manifest lies on a mirror.
pub fn manifest_url(base: &str, channel: &str) -> (r: String)
    ensures
        r@ == manifest_address(base@, channel@),
{
    let mut r = without_end(base, '/').to_owned();
    r.append("/manifests/");
    r.append(channel);
    r.append(".json");
    r
}

/// A search for the manifest: one address after the other, until one answers.
#[derive(Debug)]
pub struct ManifestSearch {
    /// The addresses, in the order in which they are tried.
    pub urls: Vec<String>,
    /// How the first of them failed.
    pub errors: Vec<String>,
    /// Whether the only address was asked for explicitly.
    pub explicit: bool,
}

/// The lines of a report, each on a line of its own.
pub open spec fn lines(list: Seq<Seq<char>>) -> Seq<char>
    decreases list.len(),
{
    if list.len() == 0 {
        Seq::empty()
    } else if list.len() == 1 {
        list[0]
    } else {
        lines(list.drop_last()) + "\n"@ + list.last()
    }
}

/// How the failure of each address is reported.
pub open spec fn failures(urls: Seq<Seq<char>>, errors: Seq<Seq<char>>) -> Seq<Seq<char>> {
    Seq::new(errors.len(), |i: int| "  "@ + urls[i] + ": "@ + errors[i])
}

impl ManifestSearch {
    /// Whether there is an address for each failure.
    pub open spec fn is_valid(&self) -> bool {
        self.errors@.len() <= self.urls@.len() && (self.explicit ==> self.urls@.len() == 1)
    }

    /// A search in all of `bases` for a channel, or under the one address that is asked for.
    pub fn new(explicit_url: Option<&String>, bases: &Vec<String>, channel: &str) -> (r: Self)
        ensures
            r.is_valid(),
            r.errors@.len() == 0,
            r.explicit == (explicit_url is Some),
            match explicit_url {
                Some(url) => text::views(r.urls@) == seq![url@],
                None => text::views(r.urls@) == Seq::new(
                    bases@.len(),
                    |i: int| manifest_address(bases@[i]@, channel@),
                ),
            },
    {
        let mut urls: Vec<String> = Vec::new();
        match explicit_url {
            Some(url) => {
                urls.push(url.clone());
                assert(text::views(urls@) =~= seq![url@]);
                ManifestSearch { urls, errors: Vec::new(), explicit: true }
            },
            None => {
                let mut i: usize = 0;
                while i < bases.len()
                    invariant
                        i <= bases.len(),
                        urls@.len() == i,
                        forall|j: int| 0 <= j < i ==> (#[trigger] urls@[j])@ == manifest_address(bases@[j]@, channel@),
                    decreases bases.len() - i,
                {
                    urls.push(manifest_url(bases[i].as_str(), channel));
                    i += 1;
                }
                assert(text::views(urls@) =~= Seq::new(
                    bases@.len(),
                    |i: int| manifest_address(bases@[i]@, channel@),
                ));
                ManifestSearch { urls, errors: Vec::new(), explicit: false }
            },
        }
    }

    /// The address to try next, if any is left.
    pub fn current(&self) -> (r: Option<&str>)
        ensures
            self.errors@.len() < self.urls@.len() ==> (r matches Some(url) && url@
                == self.urls@[self.errors@.len() as int]@),
            self.errors@.len() >= self.urls@.len() ==> r is None,
    {
        if self.errors.len() < self.urls.len() {
            Some(self.urls[self.errors.len()].as_str())
        } else {
            None
        }
    }

    /// The current address failed: on to the next.
    pub fn note_failure(&mut self, error: String)
        requires
            old(self).is_valid(),
            old(self).errors@.len() < old(self).urls@.len(),
        ensures
            final(self).is_valid(),
            final(self).urls == old(self).urls,
            final(self).explicit == old(self).explicit,
            final(self).errors@ == old(self).errors@.push(error),
    {
        self.errors.push(error);
    }

    /// What the search has come to once no address is left.
    pub open spec fn failure_text(&self) -> Seq<char> {
        if self.explicit {
            "fetch "@ + self.urls@[0]@ + ": "@ + self.errors@[0]@
        } else {
            "could not fetch manifest from any mirror:\n"@ + lines(
                failures(text::views(self.urls@), text::views(self.errors@)),
            )
        }
    }

    /// What the search has come to once no address is left.
    pub fn failure(&self) -> (r: String)
        requires
            self.is_valid(),
            self.errors@.len() == self.urls@.len(),
        ensures
            r@ == self.failure_text(),
    {
        if self.explicit {
            let mut r = "fetch ".to_owned();
            r.append(self.urls[0].as_str());
            r.append(": ");
            r.append(self.errors[0].as_str());
            return r;
        }
        let ghost list = failures(text::views(self.urls@), text::views(self.errors@));
        let mut body = String::new();
        let mut i: usize = 0;
        assert(list.take(0) =~= Seq::empty());
        while i < self.errors.len()
            invariant
                i <= self.errors.len(),
                self.errors@.len() == self.urls@.len(),
                list == failures(text::views(self.urls@), text::views(self.errors@)),
                body@ == lines(list.take(i as int)),
            decreases self.errors.len() - i,
        {
            let ghost before = body@;
            let ghost next = list.take(i + 1);
            assert(next.drop_last() =~= list.take(i as int));
            assert(next.last() == "  "@ + self.urls@[i as int]@ + ": "@ + self.errors@[i as int]@);
            if i > 0 {
                body.append("\n");
            }
            let mut line = "  ".to_owned();
            line.append(self.urls[i].as_str());
            line.append(": ");
            line.append(self.errors[i].as_str());
            body.append(line.as_str());
            i += 1;
            if i == 1 {
                assert(before =~= Seq::empty());
                assert(body@ =~= line@);
                assert(next[0] == next.last());
            }
            assert(body@ =~= lines(next));
        }
        assert(list.take(i as int) =~= list);
        "could not fetch manifest from any mirror:\n".to_owned().concat(body.as_str())
    }
}

/// The host in an address.
pub open spec fn host(url: Seq<char>) -> Seq<char> {
    text::before_first(
        match text::between_marks(url, "://"@) {
            Some(rest) => rest,
            None => url,
        },
        '/',
    )
}

/// "https://dl.proto.bar/manifests/alpha.json" -> "dl.proto.bar", so the header shows which mirror
/// answered without wrapping the whole address.
pub fn host_of(url: &str) -> (r: String)
    ensures
        r@ == host(url@),
{
    let rest: &str = match after_mark(url, "://") {
        Some(rest) => rest,
        None => url,
    };
    head_of(rest, '/').to_owned()
}

/// Each setting is taken from the command line where it is given there, else from the file, else it is the
/// compiled-in one; and there is always a worker.
pub proof fn law_command_line_wins(
    argument: (Option<&String>, Option<usize>),
    configured: (Option<&String>, Option<usize>),
    chosen: (String, usize),
)
    requires
        call_ensures(channel, (argument.0, configured.0), chosen.0),
        call_ensures(concurrency, (argument.1, configured.1), chosen.1),
    ensures
        argument.0 matches Some(name) ==> chosen.0@ == name@,
        argument.0 is None ==> (configured.0 matches Some(name) ==> chosen.0@ == name@),
        argument.0 is None && configured.0 is None ==> chosen.0@ == "alpha"@,
        chosen.1 >= 1,
        argument.1 matches Some(n) ==> n >= 1 ==> chosen.1 == n,
        argument.1 is None ==> (configured.1 matches Some(n) ==> n >= 1 ==> chosen.1 == n),
        argument.1 is None && configured.1 is None ==> chosen.1 == 8,
{
}

/// The install goes where the command line says, else where the file next to the launcher says, else next
/// to the launcher.
pub proof fn law_requested_directory(
    argument: Option<&InstallPath>,
    configured: Option<&InstallPath>,
    exe: Option<&InstallPath>,
    dir: InstallPath,
)
    requires
        call_ensures(requested_dir, (argument, configured, exe), dir),
    ensures
        argument matches Some(path) ==> dir@ == path@,
        argument is None ==> (configured matches Some(path) ==> dir@ == path@),
        argument is None && configured is None ==> (exe matches Some(path) ==> path@.len() > 0 && path@.last() is Normal
            ==> dir@ == path@.take(path@.len() - 1)),
        argument is None && configured is None && exe is None ==> dir@ == seq![crate::paths::Part::CurDir],
{
}

/// The mirrors of the command line stand in front of those of the file, all of them in their order; the
/// compiled-in one is used exactly where there are none.
pub proof fn law_mirrors_of_the_command_line_come_first(
    arguments: Vec<String>,
    configured: Vec<String>,
    bases: Vec<String>,
    i: int,
)
    requires
        call_ensures(manifest_bases, (&arguments, &configured), bases),
    ensures
        arguments@.len() + configured@.len() > 0 ==> bases@.len() == arguments@.len() + configured@.len(),
        0 <= i < arguments@.len() ==> bases@[i]@ == arguments@[i]@,
        0 <= i < configured@.len() ==> bases@[arguments@.len() + i]@ == configured@[i]@,
        arguments@.len() + configured@.len() == 0 ==> bases@.len() == 1 && bases@[0]@ == "https://dl.proto.bar"@,
{
    let list = text::views(bases@);
    let given = text::views(arguments@) + text::views(configured@);
    assert(list == or_default(given));
    assert(list.len() == bases@.len());
    if 0 <= i < arguments@.len() {
        assert(list[i] == bases@[i]@);
        assert(given[i] == arguments@[i]@);
    }
    if 0 <= i < configured@.len() {
        assert(list[arguments@.len() + i] == bases@[arguments@.len() + i]@);
        assert(given[arguments@.len() + i] == configured@[i]@);
    }
    if given.len() == 0 {
        assert(list[0] == bases@[0]@);
        assert(DEFAULT_MIRRORS@[0]@ == "https://dl.proto.bar"@);
    }
}

/// Dropping repeats changes nothing else: a list without repeats stays as it is, and of two equal neighbours
/// one stays, wherever they stand.
pub proof fn law_only_repeats_are_dropped(a: Seq<Seq<char>>, x: Seq<char>, b: Seq<Seq<char>>)
    ensures
        (forall|i: int| 0 <= i < a.len() - 1 ==> #[trigger] a[i] != a[i + 1]) ==> without_repeats(a) == a,
        without_repeats(a.push(x).push(x) + b) == without_repeats(a.push(x) + b),
    decreases a.len() + b.len(),
{
    if a.len() > 1 && (forall|i: int| 0 <= i < a.len() - 1 ==> #[trigger] a[i] != a[i + 1]) {
        let front = a.drop_last();
        assert forall|i: int| 0 <= i < front.len() - 1 implies #[trigger] front[i] != front[i + 1] by {
            assert(a[i] != a[i + 1]);
        }
        law_only_repeats_are_dropped(front, x, Seq::empty());
        assert(a[a.len() - 2] != a[a.len() - 2 + 1]);
        assert(without_repeats(a) =~= a);
    }
    let twice = a.push(x).push(x) + b;
    let once = a.push(x) + b;
    if b.len() == 0 {
        assert(twice =~= a.push(x).push(x));
        assert(once =~= a.push(x));
        assert(twice.drop_last() =~= once);
        assert(twice[twice.len() - 2] == twice.last());
    } else {
        let front = b.drop_last();
        law_only_repeats_are_dropped(a, x, front);
        assert(twice.drop_last() =~= a.push(x).push(x) + front);
        assert(once.drop_last() =~= a.push(x) + front);
        assert(twice.last() == once.last());
        assert(twice[twice.len() - 2] == once[once.len() - 2]);
    }
}

/// The manifest's own mirrors come last: a download goes to the mirrors that the manifest was looked for on, and
/// then to those that it lists; none is left out.
pub proof fn law_listed_mirrors_come_last(
    arguments: Vec<String>,
    configured: Vec<String>,
    listed: Vec<String>,
    mirrors: Vec<String>,
    bases: Vec<String>,
    i: int,
)
    requires
        call_ensures(download_mirrors, (&arguments, &configured, &listed), mirrors),
        call_ensures(manifest_bases, (&arguments, &configured), bases),
    ensures
        text::views(mirrors@) == without_repeats(text::views(bases@) + text::views(listed@)),
        0 <= i < bases@.len() ==> text::views(mirrors@).contains(bases@[i]@),
        0 <= i < listed@.len() ==> text::views(mirrors@).contains(listed@[i]@),
        mirrors@.len() > 0 && mirrors@[0]@ == bases@[0]@,
{
    let list = text::views(bases@) + text::views(listed@);
    assert(text::views(bases@).len() > 0);
    if 0 <= i < bases@.len() {
        assert(list[i] == bases@[i]@);
        law_no_mirror_is_lost(list, list[i]);
    }
    if 0 <= i < listed@.len() {
        assert(list[bases@.len() + i] == listed@[i]@);
        law_no_mirror_is_lost(list, listed@[i]@);
    }
    lemma_first_mirror(list);
    assert(text::views(mirrors@)[0] == mirrors@[0]@);
    assert(list[0] == bases@[0]@);
}

proof fn lemma_first_mirror(list: Seq<Seq<char>>)
    requires
        list.len() > 0,
    ensures
        without_repeats(list).len() > 0,
        without_repeats(list)[0] == list[0],
    decreases list.len(),
{
    if list.len() > 1 {
        lemma_first_mirror(list.drop_last());
    }
}

/// A channel's manifest lies below its mirror, behind a single slash, with however many the mirror's address ends.
pub proof fn law_manifest_lies_below_its_mirror(base: Seq<char>, channel: Seq<char>)
    ensures
        base.len() > 0 && base.last() != '/' ==> manifest_address(base, channel) == base + "/manifests/"@ + channel
            + ".json"@,
        manifest_address(base.push('/'), channel) == manifest_address(base, channel),
{
    text::law_trimmed_end(base, '/');
}

/// A search looks under the address that was asked for and no other; where none was, on every mirror in its turn.
pub proof fn law_search_goes_through_the_mirrors(
    url: Option<&String>,
    bases: Vec<String>,
    channel: &str,
    search: ManifestSearch,
    i: int,
)
    requires
        call_ensures(ManifestSearch::new, (url, &bases, channel), search),
    ensures
        search.errors@.len() == 0,
        url matches Some(u) ==> search.urls@.len() == 1 && search.urls@[0]@ == u@,
        url is None ==> search.urls@.len() == bases@.len() && (0 <= i < bases@.len() ==> search.urls@[i]@ == manifest_address(
            bases@[i]@,
            channel@,
        )),
{
    let list = text::views(search.urls@);
    assert(list.len() == search.urls@.len());
    if url is Some {
        assert(list[0] == search.urls@[0]@);
    } else if 0 <= i < bases@.len() {
        assert(list[i] == search.urls@[i]@);
    }
}

/// After so many failures the next address is tried, and none where all of them failed.
pub proof fn law_search_tries_one_after_the_other(search: ManifestSearch, next: Option<&str>)
    requires
        search.is_valid(),
        call_ensures(ManifestSearch::current, (&search,), next),
    ensures
        next is None <==> search.errors@.len() == search.urls@.len(),
        next matches Some(url) ==> url@ == search.urls@[search.errors@.len() as int]@,
{
}

/// A report of lines has them in their order, with a line break between each and the next.
pub proof fn law_lines_are_joined(list: Seq<Seq<char>>, line: Seq<char>)
    ensures
        list.len() > 0 ==> lines(list.push(line)) == lines(list) + "\n"@ + line,
        lines(seq![line]) == line,
{
    assert(list.push(line).drop_last() =~= list);
}

/// The host is what stands between the scheme and the path, port included.
pub proof fn law_host_is_between_scheme_and_path(scheme: Seq<char>, name: Seq<char>, path: Seq<char>)
    requires
        !scheme.contains(':'),
        !name.contains('/'),
        path.len() > 0 ==> path[0] != '/',
    ensures
        host(scheme + "://"@ + (name.push('/') + path)) == name,
        host(scheme + "://"@ + name) == name,
{
    assert((name.push('/') + path).take(name.len() as int) =~= name);
    lemma_host(scheme, name, name.push('/') + path);
    lemma_host(scheme, name, name);
    text::law_split_at_the_first(name, path, '/');
}

#[verifier::spinoff_prover]
proof fn lemma_host(scheme: Seq<char>, name: Seq<char>, rest: Seq<char>)
    requires
        !scheme.contains(':'),
        !name.contains('/'),
        rest == name || (rest.len() > name.len() && rest.take(name.len() as int) == name && rest[name.len() as int] == '/'
            && (rest.len() > name.len() + 1 ==> rest[name.len() as int + 1] != '/')),
    ensures
        host(scheme + "://"@ + rest) == name,
{
    reveal_strlit("://");
    let mark = "://"@;
    let url = scheme + mark + rest;
    text::law_search_finds_the_first(scheme, mark, rest);
    let k = text::find(url, mark)->0;
    if k < scheme.len() {
        assert(url.skip(k as int).take(3)[0] == url[k as int]);
        assert(url[k as int] == scheme[k as int]);
        assert(scheme.contains(scheme[k as int]));
    }
    assert(k == scheme.len());
    assert(url.skip(k as int + 3) =~= rest);
    text::lemma_find(rest, mark);
    let host_text = match text::find(rest, mark) {
        Some(m) => rest.take(m as int),
        None => rest,
    };
    assert forall|j: int| 0 <= j < name.len() && j < rest.len() implies rest[j] == name[j] by {
        if rest != name {
            assert(rest.take(name.len() as int)[j] == rest[j]);
        }
    }
    if let Some(found) = text::find(rest, mark) {
        let m = found as int;
        let at = rest.skip(m);
        assert(at.take(3)[1] == rest[m + 1]);
        assert(at.take(3)[2] == rest[m + 2]);
        if m + 1 < name.len() {
            assert(name[m + 1] == '/');
            assert(name.contains(name[m + 1]));
        }
        assert(m >= name.len()) by {
            if m + 1 == name.len() {
                assert(rest[m + 2] == '/');
                assert(false);
            }
        }
    }
    assert(host_text.len() >= name.len());
    assert forall|j: int| 0 <= j < name.len() implies host_text[j] != '/' by {
        assert(host_text[j] == name[j]);
        assert(name.contains(name[j]));
    }
    text::lemma_first_index_unique(host_text, '/', name.len());
    assert(host_text.take(name.len() as int) =~= name);
}

/// A failure is noted behind those before it, and the search goes on with the next address.
pub proof fn law_failure_leads_to_the_next_address(search: &mut ManifestSearch, error: String)
    requires
        call_ensures(ManifestSearch::note_failure, (search, error), ()),
    ensures
        final(search).errors@ == old(search).errors@.push(error),
        final(search).urls@ == old(search).urls@,
        final(search).explicit == old(search).explicit,
{
}

/// A search that has failed everywhere names every address with its error, in their order; a search under one address
/// names that.
pub proof fn law_failed_search_names_its_errors(search: ManifestSearch, report: String)
    requires
        search.is_valid(),
        search.errors@.len() == search.urls@.len(),
        call_ensures(ManifestSearch::failure, (&search,), report),
    ensures
        search.explicit ==> report@ == "fetch "@ + search.urls@[0]@ + ": "@ + search.errors@[0]@,
        !search.explicit ==> report@ == "could not fetch manifest from any mirror:\n"@ + lines(
            Seq::new(
                search.urls@.len(),
                |i: int| "  "@ + search.urls@[i]@ + ": "@ + search.errors@[i]@,
            ),
        ),
{
    if !search.explicit {
        let a = failures(text::views(search.urls@), text::views(search.errors@));
        let b = Seq::new(search.urls@.len(), |i: int| "  "@ + search.urls@[i]@ + ": "@ + search.errors@[i]@);
        assert forall|i: int| 0 <= i < a.len() implies a[i] == b[i] by {
            assert(text::views(search.urls@)[i] == search.urls@[i]@);
            assert(text::views(search.errors@)[i] == search.errors@[i]@);
        }
        assert(a =~= b);
    }
}

/// Addresses and hosts, as they are carried out.
pub proof fn law_addresses_as_they_are_carried_out(base: &str, name: &str, url: String, host_name: String)
    requires
        call_ensures(manifest_url, (base, name), url),
        call_ensures(host_of, (base,), host_name),
    ensures
        url@ == manifest_address(base@, name@),
        host_name@ == host(base@),
{
}

} // verus!
