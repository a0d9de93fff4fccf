//! What the progress view shows: content buckets, counters, and the texts of its rows.

use crate::manifest::{self, FileEntry, Os};
use crate::measure::{self, human, percent};
use crate::number::{self, decimal, decimal_right_aligned, decimal_zero_padded};
use crate::text::{
    self, after_mark, begins_with, chars_of, head_of, pad_left, pad_right, same, split, split_once, tail_of,
    without_end, without_start,
};
use vstd::prelude::*;
use vstd::string::*;

verus! {

/// The progress of one download worker.
#[derive(Debug)]
pub struct WorkerSlot {
    pub cur: u64,
    pub total: u64,
    pub active: bool,
    pub name: String,
}

impl WorkerSlot {
    /// A worker that has not started.
    pub fn new() -> (r: Self)
        ensures
            r.cur == 0,
            r.total == 0,
            !r.active,
            r.name@ == "idle"@,
    {
        WorkerSlot { cur: 0, total: 0, active: false, name: "idle".to_owned() }
    }
}

/// One content bucket in the breakdown panel ("Models", "Maps", …).
#[derive(Debug)]
pub struct CategorySlot {
    pub name: &'static str,
    pub total: u64,
    pub done: u64,
}

/// Static context shown above the bars. The download view takes over the whole screen, so
/// anything printed before it starts is invisible while it runs — this keeps "what am I
/// downloading, onto what, from where" on screen the whole time.
#[derive(Debug)]
pub struct Header {
    pub system: String,
    pub platform: String,
    pub release: String,
    pub mirror: String,
}

impl Clone for Header {
    fn clone(&self) -> (r: Self)
        ensures
            r == *self,
    {
        Header {
            system: self.system.clone(),
            platform: self.platform.clone(),
            release: self.release.clone(),
            mirror: self.mirror.clone(),
        }
    }
}

impl Default for Header {
    fn default() -> (r: Self)
        ensures
            r.system@.len() == 0,
            r.platform@.len() == 0,
            r.release@.len() == 0,
            r.mirror@.len() == 0,
    {
        Header { system: String::new(), platform: String::new(), release: String::new(), mirror: String::new() }
    }
}

/// The bucket of a file in the content directory `top` of a game directory; `tail` is its path
/// below that directory.
pub open spec fn content_category(top: Seq<char>, tail: Seq<char>) -> Seq<char> {
    if top == "models"@ {
        "Models"@
    } else if top == "maps"@ {
        "Maps"@
    } else if top == "sounds"@ {
        "Sounds"@
    } else if top == "textures"@ {
        "Textures"@
    } else if top == "gfx"@ {
        if text::before_first(tail, '/') == "decals"@ || text::before_first(tail, '/') == "env"@ {
            "Textures"@
        } else {
            "Interface"@
        }
    } else if top == "sprites"@ {
        "Interface"@
    } else {
        "Game data"@
    }
}

/// The bucket of a manifest path.
pub open spec fn category(path: Seq<char>) -> Seq<char> {
    let rest = text::after_first(path, '/');
    if !path.contains('/') {
        "Engine"@
    } else if rest.contains('/') {
        content_category(text::before_first(rest, '/'), text::after_first(rest, '/'))
    } else if text::after_last(rest, '.') == "pk3"@ {
        "Packs"@
    } else {
        "Game data"@
    }
}

/// Which bucket a manifest path belongs to. Paths look like "quakers/models/..." or a bare
/// "fteqw64.exe" at the install root.
pub fn category_of(path: &str) -> (r: &'static str)
    ensures
        r@ == category(path@),
{
    let rest: &str = match split_once(path, '/') {
        Some((_, rest)) => rest,
        None => {
            return "Engine";
        },
    };
    match split_once(rest, '/') {
        Some((top, tail)) => {
            if same(top, "models") {
                "Models"
            } else if same(top, "maps") {
                "Maps"
            } else if same(top, "sounds") {
                "Sounds"
            } else if same(top, "textures") {
                "Textures"
            } else if same(top, "gfx") {
                // gfx/ is mostly HUD and menu art, but gfx/decals (bullet holes, sprays) and
                // gfx/env (skyboxes) are world textures by any sane reading.
                let first: &str = head_of(tail, '/');
                if same(first, "decals") || same(first, "env") {
                    "Textures"
                } else {
                    "Interface"
                }
            } else if same(top, "sprites") {
                "Interface"
            } else {
                "Game data"
            }
        },
        // gamedir-root files: the big pk3 packs dominate the payload, so they get their own
        // bucket rather than vanishing into "Game data".
        None => if same(tail_of(rest, '.'), "pk3") {
            "Packs"
        } else {
            "Game data"
        },
    }
}

/// Display order for the breakdown panel; buckets with nothing to fetch are dropped.
pub const CATEGORY_ORDER: [&'static str; 8] = [
    "Packs",
    "Models",
    "Textures",
    "Maps",
    "Sounds",
    "Interface",
    "Game data",
    "Engine",
];

/// The names of the buckets, in display order.
pub open spec fn category_names() -> Seq<Seq<char>> {
    seq!["Packs"@, "Models"@, "Textures"@, "Maps"@, "Sounds"@, "Interface"@, "Game data"@, "Engine"@]
}

/// Every bucket that a path can fall into is displayed, so no bytes are silently dropped from the
/// breakdown.
pub proof fn law_every_category_is_displayed(path: Seq<char>)
    ensures
        category_names().contains(category(path)),
{
    let names = category_names();
    assert(names[0] == "Packs"@);
    assert(names[1] == "Models"@);
    assert(names[2] == "Textures"@);
    assert(names[3] == "Maps"@);
    assert(names[4] == "Sounds"@);
    assert(names[5] == "Interface"@);
    assert(names[6] == "Game data"@);
    assert(names[7] == "Engine"@);
}

/// The bytes of the files in a bucket.
pub open spec fn category_bytes(files: Seq<FileEntry>, name: Seq<char>) -> nat
    decreases files.len(),
{
    if files.len() == 0 {
        0
    } else {
        category_bytes(files.drop_last(), name) + if category(files.last().path@) == name {
            files.last().size as nat
        } else {
            0
        }
    }
}

/// The bytes of the files in the first `n` buckets.
pub open spec fn bytes_of_categories(files: Seq<FileEntry>, n: int) -> nat
    decreases n,
{
    if n <= 0 {
        0
    } else {
        bytes_of_categories(files, n - 1) + category_bytes(files, category_names()[n - 1])
    }
}

proof fn lemma_category_names_differ(i: int, j: int)
    requires
        0 <= i < j < 8,
    ensures
        category_names()[i] != category_names()[j],
{
    reveal_strlit("Packs");
    reveal_strlit("Models");
    reveal_strlit("Textures");
    reveal_strlit("Maps");
    reveal_strlit("Sounds");
    reveal_strlit("Interface");
    reveal_strlit("Game data");
    reveal_strlit("Engine");
    let names = category_names();
    assert(names[0].len() == 5);
    assert(names[1].len() == 6 && names[1][0] == 'M');
    assert(names[2].len() == 8);
    assert(names[3].len() == 4);
    assert(names[4].len() == 6 && names[4][0] == 'S');
    assert(names[5].len() == 9 && names[5][0] == 'I');
    assert(names[6].len() == 9 && names[6][0] == 'G');
    assert(names[7].len() == 6 && names[7][0] == 'E');
}

proof fn lemma_categories_step(files: Seq<FileEntry>, n: int)
    requires
        0 <= n <= 8,
        files.len() > 0,
    ensures
        bytes_of_categories(files, n) == bytes_of_categories(files.drop_last(), n) + if exists|k: int|
            0 <= k < n && #[trigger] category_names()[k] == category(files.last().path@) {
            files.last().size as nat
        } else {
            0
        },
    decreases n,
{
    if n > 0 {
        lemma_categories_step(files, n - 1);
        let name = category(files.last().path@);
        if category_names()[n - 1] == name {
            assert forall|k: int| 0 <= k < n - 1 implies #[trigger] category_names()[k] != name by {
                lemma_category_names_differ(k, n - 1);
            }
        }
    }
}

/// The buckets account for every byte exactly once.
pub proof fn law_category_totals_conserve_bytes(files: Seq<FileEntry>)
    ensures
        bytes_of_categories(files, 8) == manifest::total_size(files),
    decreases files.len(),
{
    if files.len() == 0 {
        lemma_no_files_no_bytes(files, 8);
    } else {
        law_category_totals_conserve_bytes(files.drop_last());
        lemma_categories_step(files, 8);
        law_every_category_is_displayed(files.last().path@);
        let k = choose|k: int| 0 <= k < 8 && #[trigger] category_names()[k] == category(files.last().path@);
        assert(category_names()[k] == category(files.last().path@));
    }
}

proof fn lemma_no_files_no_bytes(files: Seq<FileEntry>, n: int)
    requires
        files.len() == 0,
        0 <= n <= 8,
    ensures
        bytes_of_categories(files, n) == 0,
    decreases n,
{
    if n > 0 {
        lemma_no_files_no_bytes(files, n - 1);
    }
}

/// A bucket holds no more than all the files.
pub proof fn lemma_category_bytes_bounded(files: Seq<FileEntry>, name: Seq<char>)
    ensures
        category_bytes(files, name) <= manifest::total_size(files),
    decreases files.len(),
{
    if files.len() > 0 {
        lemma_category_bytes_bounded(files.drop_last(), name);
    }
}

/// The state of a download.
#[derive(Debug)]
pub struct Progress {
    pub total_bytes: u64,
    pub done_bytes: u64,
    pub files_total: usize,
    pub files_done: usize,
    pub workers: Vec<WorkerSlot>,
    pub categories: Vec<CategorySlot>,
    pub header: Header,
}

/// A bucket that nothing was fetched for yet.
pub open spec fn new_category(entry: (&'static str, u64)) -> CategorySlot {
    CategorySlot { name: entry.0, total: entry.1, done: 0 }
}

/// Whether a worker is not busy and has done nothing.
pub open spec fn is_new_worker(slot: WorkerSlot) -> bool {
    slot.cur == 0 && slot.total == 0 && !slot.active && slot.name@ == "idle"@
}

/// Index of the bucket called `name`.
pub open spec fn slot_index(slots: Seq<CategorySlot>, name: Seq<char>) -> Option<nat>
    decreases slots.len(),
{
    if slots.len() == 0 {
        None
    } else if slots[0].name@ == name {
        Some(0)
    } else {
        match slot_index(slots.drop_first(), name) {
            Some(i) => Some(i + 1),
            None => None,
        }
    }
}

impl Progress {
    /// The state before anything was fetched.
    pub fn new(
        total_bytes: u64,
        files_total: usize,
        n_workers: usize,
        categories: Vec<(&'static str, u64)>,
        header: Header,
    ) -> (r: Self)
        ensures
            r.total_bytes == total_bytes,
            r.done_bytes == 0,
            r.files_total == files_total,
            r.files_done == 0,
            r.workers@.len() == n_workers,
            forall|i: int| 0 <= i < n_workers ==> is_new_worker(#[trigger] r.workers@[i]),
            r.categories@ == categories@.map_values(|c: (&'static str, u64)| new_category(c)),
            r.header == header,
    {
        let mut workers: Vec<WorkerSlot> = Vec::new();
        let mut i: usize = 0;
        while i < n_workers
            invariant
                i <= n_workers,
                workers@.len() == i,
                forall|j: int| 0 <= j < i ==> is_new_worker(#[trigger] workers@[j]),
            decreases n_workers - i,
        {
            workers.push(WorkerSlot::new());
            i += 1;
        }
        let mut slots: Vec<CategorySlot> = Vec::new();
        let mut k: usize = 0;
        while k < categories.len()
            invariant
                k <= categories.len(),
                slots@ == categories@.take(k as int).map_values(|c: (&'static str, u64)| new_category(c)),
            decreases categories.len() - k,
        {
            let (name, total) = categories[k];
            slots.push(CategorySlot { name, total, done: 0 });
            k += 1;
            assert(slots@ =~= categories@.take(k as int).map_values(|c: (&'static str, u64)| new_category(c)));
        }
        assert(categories@.take(k as int) =~= categories@);
        Progress { total_bytes, done_bytes: 0, files_total, files_done: 0, workers, categories: slots, header }
    }

    /// Index into `categories` for a manifest path — resolved once per job at setup, never on the
    /// byte-counting hot path.
    pub fn category_index(&self, path: &str) -> (r: Option<usize>)
        ensures
            match r {
                Some(i) => slot_index(self.categories@, category(path@)) == Some(i as nat),
                None => slot_index(self.categories@, category(path@)) is None,
            },
            r matches Some(i) ==> i < self.categories@.len() && self.categories@[i as int].name@ == category(path@),
    {
        let want: &'static str = category_of(path);
        let ghost slots = self.categories@;
        let mut i: usize = 0;
        assert(slots.skip(0) =~= slots);
        while i < self.categories.len()
            invariant
                i <= self.categories.len(),
                slots == self.categories@,
                want@ == category(path@),
                match slot_index(slots.skip(i as int), want@) {
                    Some(k) => slot_index(slots, want@) == Some((i + k) as nat),
                    None => slot_index(slots, want@) is None,
                },
            decreases self.categories.len() - i,
        {
            assert(slots.skip(i as int)[0] == slots[i as int]);
            if same(self.categories[i].name, want) {
                return Some(i);
            }
            assert(slots.skip(i as int).drop_first() =~= slots.skip(i + 1));
            i += 1;
        }
        None
    }

    /// Counts `n` fetched bytes for a bucket.
    pub fn add_category_bytes(&mut self, idx: Option<usize>, n: u64)
        requires
            idx matches Some(i) ==> i < old(self).categories@.len(),
        ensures
            idx is None ==> *final(self) == *old(self),
            idx matches Some(i) ==> final(self).categories@ == old(self).categories@.update(
                i as int,
                (CategorySlot {
                    done: old(self).categories@[i as int].done.wrapping_add(n),
                    ..old(self).categories@[i as int]
                }),
            ),
            *final(self) == (Progress { categories: final(self).categories, ..*old(self) }),
    {
        if let Some(i) = idx {
            self.categories[i].done = self.categories[i].done.wrapping_add(n);
        }
    }

    /// Counts `n` fetched bytes.
    pub fn add_bytes(&mut self, n: u64)
        ensures
            *final(self) == (Progress { done_bytes: old(self).done_bytes.wrapping_add(n), ..*old(self) }),
    {
        self.done_bytes = self.done_bytes.wrapping_add(n);
    }

    /// Counts a finished file.
    pub fn file_done(&mut self)
        ensures
            *final(self) == (Progress { files_done: old(self).files_done.wrapping_add(1), ..*old(self) }),
    {
        self.files_done = self.files_done.wrapping_add(1);
    }

    /// Worker `w` starts on a file.
    pub fn worker_start(&mut self, w: usize, name: &str, total: u64)
        requires
            w < old(self).workers@.len(),
        ensures
            final(self).workers@.len() == old(self).workers@.len(),
            forall|i: int|
                0 <= i < old(self).workers@.len() && i != w ==> #[trigger] final(self).workers@[i] == old(
                    self,
                ).workers@[i],
            final(self).workers@[w as int].name@ == name@,
            final(self).workers@[w as int].total == total,
            final(self).workers@[w as int].cur == 0,
            final(self).workers@[w as int].active,
            *final(self) == (Progress { workers: final(self).workers, ..*old(self) }),
    {
        self.workers[w].name = name.to_owned();
        self.workers[w].total = total;
        self.workers[w].cur = 0;
        self.workers[w].active = true;
    }

    /// Worker `w` has `cur` bytes of its file.
    pub fn worker_set_cur(&mut self, w: usize, cur: u64)
        requires
            w < old(self).workers@.len(),
        ensures
            final(self).workers@ == old(self).workers@.update(
                w as int,
                (WorkerSlot { cur, ..old(self).workers@[w as int] }),
            ),
            *final(self) == (Progress { workers: final(self).workers, ..*old(self) }),
    {
        self.workers[w].cur = cur;
    }

    /// Worker `w` has `n` more bytes of its file.
    pub fn worker_add(&mut self, w: usize, n: u64)
        requires
            w < old(self).workers@.len(),
        ensures
            final(self).workers@ == old(self).workers@.update(
                w as int,
                (WorkerSlot {
                    cur: old(self).workers@[w as int].cur.wrapping_add(n),
                    ..old(self).workers@[w as int]
                }),
            ),
            *final(self) == (Progress { workers: final(self).workers, ..*old(self) }),
    {
        self.workers[w].cur = self.workers[w].cur.wrapping_add(n);
    }

    /// Worker `w` has run out of files.
    pub fn worker_idle(&mut self, w: usize)
        requires
            w < old(self).workers@.len(),
        ensures
            final(self).workers@.len() == old(self).workers@.len(),
            forall|i: int|
                0 <= i < old(self).workers@.len() && i != w ==> #[trigger] final(self).workers@[i] == old(
                    self,
                ).workers@[i],
            final(self).workers@[w as int].name@ == "idle"@,
            !final(self).workers@[w as int].active,
            final(self).workers@[w as int].cur == old(self).workers@[w as int].cur,
            final(self).workers@[w as int].total == old(self).workers@[w as int].total,
            *final(self) == (Progress { workers: final(self).workers, ..*old(self) }),
    {
        self.workers[w].active = false;
        self.workers[w].name = "idle".to_owned();
    }
}

/// A size takes no more than its column has room for, below 4096 TB.
proof fn lemma_human_width(b: nat)
    requires
        b < 0x10_0000_0000_0000,
    ensures
        measure::human_text(b).len() <= 9,
{
    reveal_strlit(" B");
    reveal_strlit(" ");
    reveal_strlit(".");
    reveal_strlit("KB");
    reveal_strlit("MB");
    reveal_strlit("GB");
    reveal_strlit("TB");
    if b < 1024 {
        number::lemma_dec_width(b);
    } else {
        measure::lemma_small_is_double(b);
        let unit = measure::size_unit(b).0;
        let v = measure::nearest(b * 10, unit);
        assert(b < 4096 * unit);
        assert(v <= 40960) by {
            assert(b * 10 / unit < 40960) by (nonlinear_arith)
                requires
                    b < 4096 * unit,
                    unit > 0,
            ;
        }
        number::lemma_dec_width(v / 10);
        number::lemma_dec_width(v % 10);
    }
}

/// A change in the number of digits never shifts the layout: sizes below 4096 TB always take 20
/// columns, and the share of the whole takes 4.
pub proof fn law_columns_do_not_move(done: nat, total: nat)
    requires
        done <= total < 0x10_0000_0000_0000,
    ensures
        sizes_text(done, total).len() == 20,
        percent_text(share(done, total)).len() == 4,
{
    reveal_strlit(" /");
    reveal_strlit("%");
    reveal_strlit(" ");
    lemma_human_width(done);
    lemma_human_width(total);
    if total > 0 {
        measure::law_percent_is_a_percentage(done, total);
    }
    let pct = share(done, total);
    number::lemma_dec_width(pct);
    text::lemma_padded(measure::human_text(done), 9);
    text::lemma_padded(measure::human_text(total), 9);
    text::lemma_padded(number::dec(pct), 3);
}

/// Nor does the count of files: it takes the columns of the final count.
pub proof fn law_file_count_does_not_move(done: nat, total: nat)
    requires
        done <= total,
    ensures
        text::padded_left(number::dec(done), number::dec(total).len()).len() == number::dec(total).len(),
{
    reveal_strlit(" ");
    number::lemma_dec_grows(done, total);
    text::lemma_padded(number::dec(done), number::dec(total).len());
}

/// Rows that the view takes: a header of 5 and a framed bucket list where there are buckets, 3 for
/// the total, and the framed worker list.
pub open spec fn view_rows(n_workers: nat, n_categories: nat) -> nat {
    (if n_categories > 0 {
        5 + n_categories % 0x1_0000 + 2
    } else {
        0
    }) + 3 + n_workers % 0x1_0000 + 2
}

/// Rows that the progress view takes. The numbers count modulo 2^16, the width of a row number.
pub fn view_height(n_workers: usize, n_categories: usize) -> (r: u16)
    requires
        view_rows(n_workers as nat, n_categories as nat) <= u16::MAX,
    ensures
        r == view_rows(n_workers as nat, n_categories as nat),
{
    let workers: u16 = (n_workers % 0x1_0000) as u16;
    if n_categories > 0 {
        let categories: u16 = (n_categories % 0x1_0000) as u16;
        5 + 3 + (categories + 2) + workers + 2
    } else {
        3 + workers + 2
    }
}

/// Rows of the sections of the view, from top to bottom: header, total, buckets, workers. A
/// section with nothing to show takes none.
pub open spec fn section_rows(header: bool, n_categories: nat, n_workers: nat) -> Seq<nat> {
    seq![
        if header {
            5
        } else {
            0
        },
        3,
        if n_categories % 0x1_0000 > 0 {
            n_categories % 0x1_0000 + 2
        } else {
            0
        },
        n_workers % 0x1_0000 + 2,
    ]
}

impl Progress {
    /// Rows of the sections of the view, from top to bottom: header, total, buckets, workers.
    pub fn sections(&self) -> (r: [u16; 4])
        requires
            self.categories@.len() % 0x1_0000 + 2 <= u16::MAX,
            self.workers@.len() % 0x1_0000 + 2 <= u16::MAX,
        ensures
            forall|i: int|
                0 <= i < 4 ==> #[trigger] r@[i] == section_rows(
                    self.header.release@.len() > 0,
                    self.categories@.len(),
                    self.workers@.len(),
                )[i],
    {
        let categories: u16 = (self.categories.len() % 0x1_0000) as u16;
        let workers: u16 = (self.workers.len() % 0x1_0000) as u16;
        let header: u16 = if self.header.is_shown() { 5 } else { 0 };
        let buckets: u16 = if categories > 0 { categories + 2 } else { 0 };
        [header, 3, buckets, workers + 2]
    }
}

/// The sections fill the height of the view, where a header is shown exactly with a bucket list.
pub proof fn law_sections_fill_the_view(n_categories: nat, n_workers: nat)
    requires
        n_categories < 0x1_0000,
    ensures
        ({
            let rows = section_rows(n_categories > 0, n_categories, n_workers);
            rows[0] + rows[1] + rows[2] + rows[3] == view_rows(n_workers, n_categories)
        }),
{
}

/// `s` cut down to `max` characters: its end, with an ellipsis in front.
pub open spec fn truncated(s: Seq<char>, max: nat) -> Seq<char> {
    if s.len() <= max {
        s
    } else {
        "…"@ + s.skip(s.len() - (max - 1))
    }
}

/// `s` cut down to `max` characters. The end is what tells file names apart.
pub fn truncate(s: &str, max: usize) -> (r: String)
    requires
        max > 0 || s@.len() == 0,
    ensures
        r@ == truncated(s@, max as nat),
{
    let n: usize = s.unicode_len();
    if n <= max {
        s.to_owned()
    } else {
        let tail = s.substring_char(n - (max - 1), n);
        assert(tail@ =~= s@.skip(n - (max - 1)));
        "…".to_owned().concat(tail)
    }
}

/// Seconds as hours, minutes and seconds.
pub open spec fn clock_text(secs: nat) -> Seq<char> {
    number::dec(secs / 3600) + ":"@ + number::dec_zero_padded((secs % 3600) / 60, 2) + ":"@ + number::dec_zero_padded(
        secs % 60,
        2,
    )
}

/// The remaining time, as far as it can be told.
pub fn eta(secs: Option<u64>) -> (r: String)
    ensures
        match secs {
            Some(n) => r@ == clock_text(n as nat),
            None => r@ == "  --:--"@,
        },
{
    match secs {
        Some(n) => {
            let mut r = decimal(n / 3600);
            r.append(":");
            r.append(decimal_zero_padded((n % 3600) / 60, 2).as_str());
            r.append(":");
            r.append(decimal_zero_padded(n % 60, 2).as_str());
            r
        },
        None => "  --:--".to_owned(),
    }
}

/// "done / total" in columns of a fixed width.
pub open spec fn sizes_text(done: nat, total: nat) -> Seq<char> {
    text::padded_left(measure::human_text(done), 9) + " /"@ + text::padded_left(measure::human_text(total), 9)
}

/// Fetched and expected bytes, in columns that do not move.
pub fn sizes(done: u64, total: u64) -> (r: String)
    ensures
        r@ == sizes_text(done as nat, total as nat),
{
    let mut r = pad_left(human(done).as_str(), 9);
    r.append(" /");
    r.append(pad_left(human(total).as_str(), 9).as_str());
    r
}

/// A transfer rate in bytes per second.
pub fn speed(bytes_per_second: u64) -> (r: String)
    ensures
        r@ == text::padded_left(measure::human_text(bytes_per_second as nat), 7) + "/s"@,
{
    pad_left(human(bytes_per_second).as_str(), 7).concat("/s")
}

/// A percentage in three columns.
pub open spec fn percent_text(pct: nat) -> Seq<char> {
    text::padded_left(number::dec(pct), 3) + "%"@
}

pub fn percent_label(pct: u64) -> (r: String)
    ensures
        r@ == percent_text(pct as nat),
{
    decimal_right_aligned(pct, 3).concat("%")
}

/// The share of `done` in `total` in whole percent; 0 where there is nothing to do.
pub open spec fn share(done: nat, total: nat) -> nat {
    if total == 0 {
        0
    } else {
        measure::percent_of(done, total)
    }
}

/// The smaller of two numbers.
pub open spec fn least(a: nat, b: nat) -> nat {
    if a <= b {
        a
    } else {
        b
    }
}

/// A row of the bucket list.
#[derive(Debug)]
pub struct CategoryRow {
    pub name: &'static str,
    /// Fetched bytes, at most the expected ones.
    pub done: u64,
    pub complete: bool,
    pub percent: String,
    pub sizes: String,
}

impl CategorySlot {
    /// What the bucket list shows of the bucket.
    pub fn row(&self) -> (r: CategoryRow)
        ensures
            r.name == self.name,
            r.done == least(self.done as nat, self.total as nat),
            r.complete == (self.done >= self.total),
            r.percent@ == percent_text(share(r.done as nat, self.total as nat)),
            r.sizes@ == sizes_text(r.done as nat, self.total as nat),
    {
        let done: u64 = if self.done <= self.total { self.done } else { self.total };
        CategoryRow {
            name: self.name,
            done,
            complete: done >= self.total,
            percent: percent_label(percent(done, self.total)),
            sizes: sizes(done, self.total),
        }
    }
}

/// The row of the whole download.
#[derive(Debug)]
pub struct OverallRow {
    /// Fetched bytes, at most the expected ones.
    pub done: u64,
    pub percent: String,
    pub files: String,
}

impl Progress {
    /// What the total row shows.
    pub fn overall(&self) -> (r: OverallRow)
        ensures
            r.done == least(self.done_bytes as nat, self.total_bytes as nat),
            r.percent@ == percent_text(share(r.done as nat, self.total_bytes as nat)),
            r.files@ == "("@ + text::padded_left(
                number::dec(self.files_done as nat),
                number::dec(self.files_total as nat).len(),
            ) + "/"@ + number::dec(self.files_total as nat) + ")"@,
    {
        let done: u64 = if self.done_bytes <= self.total_bytes { self.done_bytes } else { self.total_bytes };
        let total = decimal(self.files_total as u64);
        let width: usize = total.as_str().unicode_len();
        let mut files = "(".to_owned();
        files.append(decimal_right_aligned(self.files_done as u64, width).as_str());
        files.append("/");
        files.append(total.as_str());
        files.append(")");
        OverallRow { done, percent: percent_label(percent(done, self.total_bytes)), files }
    }
}

/// A row of the worker list.
#[derive(Debug)]
pub struct WorkerRow {
    pub label: String,
    pub name: String,
    /// Empty for a worker that is idle.
    pub sizes: String,
}

impl WorkerSlot {
    /// What the worker list shows of the worker, the `number`th from 1.
    pub fn row(&self, number: u64) -> (r: WorkerRow)
        ensures
            r.label@ == "Worker "@ + number::dec(number as nat) + ": "@,
            r.name@ == truncated(self.name@, 26),
            self.active ==> r.sizes@ == sizes_text(self.cur as nat, self.total as nat),
            !self.active ==> r.sizes@.len() == 0,
    {
        let mut label = "Worker ".to_owned();
        label.append(decimal(number).as_str());
        label.append(": ");
        let shown = if self.active {
            sizes(self.cur, self.total)
        } else {
            String::new()
        };
        WorkerRow { label, name: truncate(self.name.as_str(), 26), sizes: shown }
    }
}

impl Header {
    /// Whether there is anything to show.
    pub fn is_shown(&self) -> (r: bool)
        ensures
            r == (self.release@.len() > 0),
    {
        self.release.as_str().unicode_len() > 0
    }

    /// The rows of the header: labels in a column of their own, and what they stand for.
    pub fn rows(&self) -> (r: Vec<(String, String)>)
        ensures
            r@.len() == 3,
            r@[0].0@ == text::padded_right(" System"@, 9),
            r@[0].1@ == self.system@,
            r@[1].0@ == text::padded_right(" Release"@, 9),
            r@[1].1@ == self.release@ + "   ("@ + self.platform@ + " build)"@,
            r@[2].0@ == text::padded_right(" Mirror"@, 9),
            r@[2].1@ == self.mirror@,
    {
        let mut release = self.release.clone();
        release.append("   (");
        release.append(self.platform.as_str());
        release.append(" build)");
        let mut r: Vec<(String, String)> = Vec::new();
        r.push((pad_right(" System", 9), self.system.clone()));
        r.push((pad_right(" Release", 9), release));
        r.push((pad_right(" Mirror", 9), self.mirror.clone()));
        r
    }
}

/// A line of a text, without the carriage return of a "\r\n" ending.
pub open spec fn line_of(piece: Seq<char>, ended: bool) -> Seq<char> {
    if ended && piece.len() > 0 && piece.last() == '\r' {
        piece.drop_last()
    } else {
        piece
    }
}

/// What the first line that starts with `key` says behind it, in the lines between newlines.
pub open spec fn value_in_lines(list: Seq<Seq<char>>, key: Seq<char>) -> Option<Seq<char>>
    decreases list.len(),
{
    if list.len() == 0 {
        None
    } else {
        let line = line_of(list[0], list.len() > 1);
        if text::starts_with(line, key) {
            Some(line.skip(key.len() as int))
        } else {
            value_in_lines(list.drop_first(), key)
        }
    }
}

/// What the first line of `content` that starts with `key` says behind it.
pub fn value_of_key(content: &str, key: &str) -> (r: Option<String>)
    ensures
        match r {
            Some(v) => value_in_lines(text::pieces(content@, '\n'), key@) == Some(v@),
            None => value_in_lines(text::pieces(content@, '\n'), key@) is None,
        },
{
    let list = split(content, '\n');
    let ghost all = text::views(list@);
    let mut i: usize = 0;
    assert(all.skip(0) =~= all);
    while i < list.len()
        invariant
            i <= list.len(),
            all == text::views(list@),
            all == text::pieces(content@, '\n'),
            value_in_lines(all, key@) == value_in_lines(all.skip(i as int), key@),
        decreases list.len() - i,
    {
        let piece: &str = list[i].as_str();
        let n: usize = piece.unicode_len();
        assert(all.skip(i as int)[0] == piece@);
        let end: usize = if i + 1 < list.len() && n > 0 && piece.get_char(n - 1) == '\r' {
            n - 1
        } else {
            n
        };
        let line = piece.substring_char(0, end);
        assert(line@ =~= line_of(piece@, all.skip(i as int).len() > 1));
        if begins_with(line, key) {
            let m: usize = key.unicode_len();
            let value = line.substring_char(m, end);
            assert(value@ =~= line@.skip(m as int));
            return Some(value.to_owned());
        }
        assert(all.skip(i as int).drop_first() =~= all.skip(i + 1));
        i += 1;
    }
    None
}

/// Whether a character is white space.
pub open spec fn is_space(c: char) -> bool {
    ||| '\u{9}' <= c <= '\u{d}'
    ||| c == ' '
    ||| c == '\u{85}'
    ||| c == '\u{a0}'
    ||| c == '\u{1680}'
    ||| '\u{2000}' <= c <= '\u{200a}'
    ||| c == '\u{2028}'
    ||| c == '\u{2029}'
    ||| c == '\u{202f}'
    ||| c == '\u{205f}'
    ||| c == '\u{3000}'
}

/// `s` without the white space at its start.
pub open spec fn without_leading_space(s: Seq<char>) -> Seq<char>
    decreases s.len(),
{
    if s.len() > 0 && is_space(s[0]) {
        without_leading_space(s.drop_first())
    } else {
        s
    }
}

/// `s` without the white space at its end.
pub open spec fn without_trailing_space(s: Seq<char>) -> Seq<char>
    decreases s.len(),
{
    if s.len() > 0 && is_space(s.last()) {
        without_trailing_space(s.drop_last())
    } else {
        s
    }
}

fn is_space_char(c: char) -> (r: bool)
    ensures
        r == is_space(c),
{
    ('\u{9}' <= c && c <= '\u{d}') || c == ' ' || c == '\u{85}' || c == '\u{a0}' || c == '\u{1680}' || ('\u{2000}'
        <= c && c <= '\u{200a}') || c == '\u{2028}' || c == '\u{2029}' || c == '\u{202f}' || c == '\u{205f}' || c
        == '\u{3000}'
}

/// `s` without the white space around it.
pub fn trim<'a>(s: &'a str) -> (r: &'a str)
    ensures
        r@ == without_trailing_space(without_leading_space(s@)),
{
    let v = chars_of(s);
    let mut i: usize = 0;
    assert(v@.skip(0) =~= v@);
    while i < v.len() && is_space_char(v[i])
        invariant
            i <= v.len(),
            v@ == s@,
            without_leading_space(s@) == without_leading_space(v@.skip(i as int)),
        decreases v.len() - i,
    {
        assert(v@.skip(i as int).drop_first() =~= v@.skip(i + 1));
        i += 1;
    }
    let ghost rest = v@.skip(i as int);
    assert(without_leading_space(s@) == rest);
    let mut j: usize = v.len();
    assert(rest.take(j - i) =~= rest);
    while j > i && is_space_char(v[j - 1])
        invariant
            i <= j <= v.len(),
            v@ == s@,
            rest == v@.skip(i as int),
            without_trailing_space(rest) == without_trailing_space(rest.take(j - i)),
        decreases j,
    {
        assert(rest.take(j - i).last() == v@[j - 1]);
        assert(rest.take(j - i).drop_last() =~= rest.take(j - i - 1));
        j -= 1;
    }
    proof {
        if j > i {
            assert(rest.take(j - i).last() == v@[j - 1]);
        }
    }
    let r = s.substring_char(i, j);
    assert(r@ =~= rest.take(j - i));
    r
}

/// The version number in a report such as "Microsoft Windows [Version 10.0.26100.1234]".
pub open spec fn windows_version(report: Seq<char>) -> Option<Seq<char>> {
    match text::between_marks(report, "[Version"@) {
        Some(s) => Some(without_trailing_space(without_leading_space(text::before_first(s, ']')))),
        None => None,
    }
}

/// The name of the system, without the architecture.
pub open spec fn system_name(os: Os, report: Option<Seq<char>>, os_name: Seq<char>) -> Seq<char> {
    match os {
        Os::Linux => match report {
            Some(content) => match value_in_lines(text::pieces(content, '\n'), "PRETTY_NAME="@) {
                Some(v) => text::trim_end(text::trim_start(v, '"'), '"'),
                None => "Linux"@,
            },
            None => "Linux"@,
        },
        Os::Windows => match report {
            Some(content) => match windows_version(content) {
                Some(v) => "Windows "@ + v,
                None => "Windows"@,
            },
            None => "Windows"@,
        },
        _ => os_name,
    }
}

/// The text behind an optional reference.
pub open spec fn text_of(s: Option<&str>) -> Option<Seq<char>> {
    match s {
        Some(t) => Some(t@),
        None => None,
    }
}

/// Best-effort human name for the machine. Linux gets its distribution's name from `report`, the
/// content of /etc/os-release; Windows gets its build number from `report`, the output of `ver`;
/// anything else goes by `os_name`.
pub fn system_description(os: Os, report: Option<&str>, os_name: &str, arch: &str) -> (r: String)
    ensures
        r@ == system_name(os, text_of(report), os_name@) + "  ·  "@ + arch@,
{
    let mut r: String = match os {
        Os::Linux => match report {
            Some(content) => match value_of_key(content, "PRETTY_NAME=") {
                Some(v) => without_end(without_start(v.as_str(), '"'), '"').to_owned(),
                None => "Linux".to_owned(),
            },
            None => "Linux".to_owned(),
        },
        Os::Windows => match report {
            Some(content) => match after_mark(content, "[Version") {
                Some(t) => "Windows ".to_owned().concat(trim(head_of(t, ']'))),
                None => "Windows".to_owned(),
            },
            None => "Windows".to_owned(),
        },
        _ => os_name.to_owned(),
    };
    r.append("  ·  ");
    r.append(arch);
    r
}

/// A file at the top of the install is the engine's.
pub proof fn law_top_level_is_the_engine(path: Seq<char>)
    requires
        !path.contains('/'),
    ensures
        category(path) == "Engine"@,
{
}

/// A file at the top of the game directory is a pack or game data, by its extension.
pub proof fn law_packs_are_told_by_extension(dir: Seq<char>, stem: Seq<char>, ext: Seq<char>)
    requires
        !dir.contains('/'),
        !stem.contains('/'),
        !ext.contains('/'),
        !ext.contains('.'),
    ensures
        category(dir.push('/') + (stem.push('.') + ext)) == if ext == "pk3"@ {
            "Packs"@
        } else {
            "Game data"@
        },
{
    let rest = stem.push('.') + ext;
    text::law_split_at_the_first(dir, rest, '/');
    text::law_tail_is_behind_the_last(stem, ext, '.');
    if rest.contains('/') {
        let k = choose|k: int| 0 <= k < rest.len() && rest[k] == '/';
        if k < stem.len() {
            assert(stem.contains(stem[k]));
        } else if k > stem.len() {
            assert(ext.contains(ext[k - stem.len() - 1]));
        }
    }
}

/// A file in a directory of the game directory falls into the bucket of that directory, whatever stands below it;
/// of the art for the interface, the parts that are seen in the world are textures.
pub proof fn law_directories_have_their_buckets(dir: Seq<char>, top: Seq<char>, tail: Seq<char>)
    requires
        !dir.contains('/'),
        !top.contains('/'),
    ensures
        ({
            let bucket = category(dir.push('/') + (top.push('/') + tail));
            &&& top == "models"@ ==> bucket == "Models"@
            &&& top == "maps"@ ==> bucket == "Maps"@
            &&& top == "sounds"@ ==> bucket == "Sounds"@
            &&& top == "textures"@ ==> bucket == "Textures"@
            &&& top == "sprites"@ ==> bucket == "Interface"@
            &&& top == "gfx"@ ==> (bucket == "Textures"@ || bucket == "Interface"@)
            &&& top == "gfx"@ && !tail.contains('/') && tail != "decals"@ && tail != "env"@ ==> bucket == "Interface"@
            &&& top != "models"@ && top != "maps"@ && top != "sounds"@ && top != "textures"@ && top != "sprites"@ && top
                != "gfx"@ ==> bucket == "Game data"@
        }),
{
    let rest = top.push('/') + tail;
    text::law_split_at_the_first(dir, rest, '/');
    text::law_split_at_the_first(top, tail, '/');
    if !tail.contains('/') {
        text::law_split_at_the_first(tail, Seq::empty(), '/');
    }
    lemma_directory_names_differ();
}

/// Decals and skies are textures although they lie with the interface, and nothing else there is.
pub proof fn law_decals_and_skies_are_textures(dir: Seq<char>, sub: Seq<char>, name: Seq<char>)
    requires
        !dir.contains('/'),
        !sub.contains('/'),
    ensures
        category(dir.push('/') + ("gfx"@.push('/') + (sub.push('/') + name))) == if sub == "decals"@ || sub == "env"@ {
            "Textures"@
        } else {
            "Interface"@
        },
{
    reveal_strlit("gfx");
    assert(!"gfx"@.contains('/'));
    let tail = sub.push('/') + name;
    let rest = "gfx"@.push('/') + tail;
    text::law_split_at_the_first(dir, rest, '/');
    text::law_split_at_the_first("gfx"@, tail, '/');
    text::law_split_at_the_first(sub, name, '/');
    lemma_directory_names_differ();
}

proof fn lemma_directory_names_differ()
    ensures
        "models"@.len() == 6 && "models"@[0] == 'm',
        "maps"@.len() == 4,
        "sounds"@.len() == 6 && "sounds"@[0] == 's',
        "textures"@.len() == 8,
        "gfx"@.len() == 3,
        "sprites"@.len() == 7,
{
    reveal_strlit("models");
    reveal_strlit("maps");
    reveal_strlit("sounds");
    reveal_strlit("textures");
    reveal_strlit("gfx");
    reveal_strlit("sprites");
}

/// The bytes of a bucket add up: those of two lists are those of the one and of the other, and a file counts in
/// its own bucket alone.
pub proof fn law_bucket_sizes_add_up(a: Seq<FileEntry>, b: Seq<FileEntry>, name: Seq<char>)
    ensures
        category_bytes(a + b, name) == category_bytes(a, name) + category_bytes(b, name),
        a.len() == 1 ==> category_bytes(a, name) == if category(a[0].path@) == name {
            a[0].size as nat
        } else {
            0
        },
    decreases b.len(),
{
    if a.len() == 1 {
        assert(a.drop_last() =~= Seq::empty());
        assert(category_bytes(a.drop_last(), name) == 0);
    }
    if b.len() == 0 {
        assert(a + b =~= a);
    } else {
        law_bucket_sizes_add_up(a, b.drop_last(), name);
        assert((a + b).drop_last() =~= a + b.drop_last());
    }
}

/// A file is counted in the slot with the name of its bucket, and in none where there is no such slot.
pub proof fn law_file_is_counted_in_its_bucket(progress: Progress, path: &str, index: Option<usize>)
    requires
        call_ensures(Progress::category_index, (&progress, path), index),
    ensures
        index matches Some(i) ==> i < progress.categories@.len() && progress.categories@[i as int].name@ == category(path@),
        index is None ==> forall|i: int|
            0 <= i < progress.categories@.len() ==> (#[trigger] progress.categories@[i]).name@ != category(path@),
{
    if index is None {
        assert forall|i: int| 0 <= i < progress.categories@.len() implies (#[trigger] progress.categories@[i]).name@
            != category(path@) by {
            if progress.categories@[i].name@ == category(path@) {
                lemma_slot_is_found(progress.categories@, category(path@), i);
            }
        }
    }
}

proof fn lemma_slot_is_found(slots: Seq<CategorySlot>, name: Seq<char>, i: int)
    requires
        0 <= i < slots.len(),
        slots[i].name@ == name,
    ensures
        slot_index(slots, name) is Some,
    decreases slots.len(),
{
    if slots[0].name@ != name {
        assert(slots.drop_first()[i - 1] == slots[i]);
        lemma_slot_is_found(slots.drop_first(), name, i - 1);
    }
}

/// A name that fits is shown as it is; a longer one is cut to the room there is, with its end kept, and an ellipsis in
/// place of what is missing.
pub proof fn law_cut_names_keep_their_end(s: &str, max: usize, shown: String)
    requires
        max > 0,
        call_ensures(truncate, (s, max), shown),
    ensures
        s@.len() <= max ==> shown@ == s@,
        s@.len() > max ==> shown@.len() == max && shown@[0] == '…' && shown@.skip(1) == s@.skip(s@.len() - max + 1),
{
    if s@.len() > max {
        reveal_strlit("…");
        assert(shown@.skip(1) =~= s@.skip(s@.len() - max + 1));
    }
}

/// A time is shown in hours, minutes and seconds, the latter two in two digits; an unknown one as dashes.
pub proof fn law_time_is_shown_in_hours(hours: nat, minutes: nat, seconds: nat, secs: Option<u64>, shown: String)
    requires
        call_ensures(eta, (secs,), shown),
        minutes < 60,
        seconds < 60,
        secs matches Some(n) ==> n == 3600 * hours + 60 * minutes + seconds,
    ensures
        secs is Some ==> shown@ == number::dec(hours) + ":"@ + number::dec_zero_padded(minutes, 2) + ":"@
            + number::dec_zero_padded(seconds, 2),
        secs is None ==> shown@ == "  --:--"@,
{
    if let Some(n) = secs {
        let t = n as nat;
        assert(t / 3600 == hours && t % 3600 == 60 * minutes + seconds) by {
            vstd::arithmetic::div_mod::lemma_fundamental_div_mod_converse(
                t as int,
                3600,
                hours as int,
                (60 * minutes + seconds) as int,
            );
        }
        assert((60 * minutes + seconds) / 60 == minutes) by {
            vstd::arithmetic::div_mod::lemma_fundamental_div_mod_converse(
                (60 * minutes + seconds) as int,
                60,
                minutes as int,
                seconds as int,
            );
        }
        assert(t % 60 == seconds) by {
            vstd::arithmetic::div_mod::lemma_fundamental_div_mod_converse(
                t as int,
                60,
                (60 * hours + minutes) as int,
                seconds as int,
            );
        }
    }
}

/// The view has a row for each bucket and each worker, a frame around each list, three rows for the total, and a
/// header above; a list of buckets that is empty takes the header with it.
pub proof fn law_view_has_room_for_every_row(n_workers: usize, n_categories: usize, rows: u16)
    requires
        n_workers < 0x1_0000,
        n_categories < 0x1_0000,
        call_ensures(view_height, (n_workers, n_categories), rows),
    ensures
        n_categories > 0 ==> rows == 5 + 3 + (n_categories + 2) + (n_workers + 2),
        n_categories == 0 ==> rows == 3 + (n_workers + 2),
{
}

/// The sections lie one below the other: header, total, buckets, workers.
pub proof fn law_sections_have_their_rows(progress: Progress, rows: [u16; 4])
    requires
        call_ensures(Progress::sections, (&progress,), rows),
        progress.categories@.len() < 0x1_0000,
        progress.workers@.len() < 0x1_0000,
    ensures
        rows@[0] == if progress.header.release@.len() > 0 { 5int } else { 0int },
        rows@[1] == 3,
        progress.categories@.len() > 0 ==> rows@[2] == progress.categories@.len() + 2,
        progress.categories@.len() == 0 ==> rows@[2] == 0,
        rows@[3] == progress.workers@.len() + 2,
{
    assert(rows@[0] == section_rows(
        progress.header.release@.len() > 0,
        progress.categories@.len(),
        progress.workers@.len(),
    )[0]);
    assert(rows@[1] == section_rows(
        progress.header.release@.len() > 0,
        progress.categories@.len(),
        progress.workers@.len(),
    )[1]);
    assert(rows@[2] == section_rows(
        progress.header.release@.len() > 0,
        progress.categories@.len(),
        progress.workers@.len(),
    )[2]);
    assert(rows@[3] == section_rows(
        progress.header.release@.len() > 0,
        progress.categories@.len(),
        progress.workers@.len(),
    )[3]);
}

/// What is shown of a bucket never exceeds what was expected, and a bucket is complete exactly when all of it was
/// fetched.
pub proof fn law_bucket_row_is_capped(slot: CategorySlot, row: CategoryRow)
    requires
        call_ensures(CategorySlot::row, (&slot,), row),
    ensures
        row.name == slot.name,
        row.done <= slot.total,
        slot.done <= slot.total ==> row.done == slot.done,
        slot.done > slot.total ==> row.done == slot.total,
        row.complete <==> slot.done >= slot.total,
        row.sizes@ == sizes_text(row.done as nat, slot.total as nat),
        row.percent@ == percent_text(share(row.done as nat, slot.total as nat)),
{
}

/// What is shown of the whole download never exceeds what was expected.
pub proof fn law_total_row_is_capped(progress: Progress, row: OverallRow)
    requires
        call_ensures(Progress::overall, (&progress,), row),
    ensures
        row.done <= progress.total_bytes,
        progress.done_bytes <= progress.total_bytes ==> row.done == progress.done_bytes,
        progress.done_bytes > progress.total_bytes ==> row.done == progress.total_bytes,
        row.percent@ == percent_text(share(row.done as nat, progress.total_bytes as nat)),
{
}

/// A worker shows its file and how far it is while it is busy, and no sizes while it is idle.
pub proof fn law_worker_row(slot: WorkerSlot, number: u64, row: WorkerRow)
    requires
        call_ensures(WorkerSlot::row, (&slot, number), row),
    ensures
        row.label@ == "Worker "@ + number::dec(number as nat) + ": "@,
        slot.name@.len() <= 26 ==> row.name@ == slot.name@,
        row.sizes@.len() > 0 ==> slot.active,
        slot.active ==> row.sizes@ == sizes_text(slot.cur as nat, slot.total as nat),
{
}

/// The value of a key is what stands behind it on the first line that starts with it, however that line ends; lines in
/// front of it, which do not, do not matter, nor does what follows.
#[verifier::spinoff_prover]
pub proof fn law_first_line_with_the_key_counts(line: Seq<char>, rest: Seq<Seq<char>>, key: Seq<char>)
    requires
        rest.len() > 0,
        line.len() == 0 || line.last() != '\r',
        key.len() == 0 || key.last() != '\r',
    ensures
        value_in_lines(seq![key + line] + rest, key) == Some(line),
        value_in_lines(seq![(key + line).push('\r')] + rest, key) == Some(line),
        !text::starts_with(line, key) ==> value_in_lines(seq![line] + rest, key) == value_in_lines(rest, key),
        value_in_lines(Seq::empty(), key) is None,
{
    let whole = key + line;
    if line.len() > 0 {
        assert(whole.last() == line.last());
    } else {
        assert(whole =~= key);
    }
    assert(line_of(whole, true) == whole);
    assert(whole.push('\r').drop_last() =~= whole);
    assert(line_of(whole.push('\r'), true) == whole);
    lemma_first_line(whole, whole, line, rest, key);
    lemma_first_line(whole.push('\r'), whole, line, rest, key);
    let other = seq![line] + rest;
    assert(other[0] == line);
    assert(other.drop_first() =~= rest);
}

proof fn lemma_first_line(
    piece: Seq<char>,
    whole: Seq<char>,
    line: Seq<char>,
    rest: Seq<Seq<char>>,
    key: Seq<char>,
)
    requires
        rest.len() > 0,
        line_of(piece, true) == whole,
        whole == key + line,
    ensures
        value_in_lines(seq![piece] + rest, key) == Some(line),
{
    let list = seq![piece] + rest;
    assert(list[0] == piece);
    text::law_beginning(whole, key, line);
    assert(whole.skip(key.len() as int) =~= line);
}

/// Trimming takes away white space at both ends, all of it and nothing else.
pub proof fn law_trimming(s: &str, trimmed: &str)
    requires
        call_ensures(trim, (s,), trimmed),
    ensures
        trimmed@.len() > 0 ==> !is_space(trimmed@[0]) && !is_space(trimmed@.last()),
        exists|i: int, j: int|
            0 <= i <= j <= s@.len() && trimmed@ == #[trigger] s@.subrange(i, j) && (forall|k: int|
                0 <= k < i || j <= k < s@.len() ==> is_space(#[trigger] s@[k])),
{
    let front = without_leading_space(s@);
    lemma_without_leading_space(s@);
    lemma_without_trailing_space(front);
    let i = s@.len() - front.len();
    let j = i + trimmed@.len();
    assert(trimmed@ =~= s@.subrange(i, j));
    assert forall|k: int| 0 <= k < i || j <= k < s@.len() implies is_space(#[trigger] s@[k]) by {
        if k >= j {
            assert(front[k - i] == s@[k]);
        }
    }
    if trimmed@.len() > 0 {
        assert(trimmed@[0] == front[0]);
    }
}

proof fn lemma_without_leading_space(s: Seq<char>)
    ensures
        ({
            let t = without_leading_space(s);
            &&& t.len() <= s.len()
            &&& t == s.skip(s.len() - t.len())
            &&& t.len() > 0 ==> !is_space(t[0])
            &&& forall|k: int| 0 <= k < s.len() - t.len() ==> is_space(#[trigger] s[k])
        }),
    decreases s.len(),
{
    if s.len() > 0 && is_space(s[0]) {
        lemma_without_leading_space(s.drop_first());
        let t = without_leading_space(s);
        assert(t =~= s.skip(s.len() - t.len()));
        assert forall|k: int| 0 <= k < s.len() - t.len() implies is_space(#[trigger] s[k]) by {
            if k > 0 {
                assert(s.drop_first()[k - 1] == s[k]);
            }
        }
    } else {
        assert(s =~= s.skip(0));
    }
}

proof fn lemma_without_trailing_space(s: Seq<char>)
    ensures
        ({
            let t = without_trailing_space(s);
            &&& t.len() <= s.len()
            &&& t == s.take(t.len() as int)
            &&& t.len() > 0 ==> !is_space(t.last())
            &&& forall|k: int| t.len() <= k < s.len() ==> is_space(#[trigger] s[k])
        }),
    decreases s.len(),
{
    if s.len() > 0 && is_space(s.last()) {
        lemma_without_trailing_space(s.drop_last());
        let t = without_trailing_space(s);
        assert(t =~= s.take(t.len() as int));
        assert forall|k: int| t.len() <= k < s.len() implies is_space(#[trigger] s[k]) by {
            if k < s.len() - 1 {
                assert(s.drop_last()[k] == s[k]);
            }
        }
    } else {
        assert(s =~= s.take(s.len() as int));
    }
}

/// A machine that says nothing of itself goes by the name of its system, and every description ends with the
/// architecture.
pub proof fn law_unknown_machine_goes_by_its_system(
    os: Os,
    report: Option<&str>,
    os_name: &str,
    arch: &str,
    described: String,
)
    requires
        call_ensures(system_description, (os, report, os_name, arch), described),
    ensures
        described@ == system_name(os, text_of(report), os_name@) + "  ·  "@ + arch@,
        report is None && os is Linux ==> described@ == "Linux"@ + "  ·  "@ + arch@,
        report is None && os is Windows ==> described@ == "Windows"@ + "  ·  "@ + arch@,
        !(os is Linux) && !(os is Windows) ==> described@ == os_name@ + "  ·  "@ + arch@,
{
}

/// A distribution goes by its pretty name, without the quotes around it.
#[verifier::spinoff_prover]
pub proof fn law_distribution_goes_by_its_name(name: Seq<char>, rest: Seq<char>, os_name: Seq<char>)
    requires
        name.len() > 0,
        name[0] != '"',
        name.last() != '"',
        !name.contains('\n'),
        !name.contains('\r'),
    ensures
        system_name(Os::Linux, Some(("PRETTY_NAME=\""@ + name).push('"').push('\n') + rest), os_name) == name,
{
    reveal_strlit("PRETTY_NAME=");
    reveal_strlit("PRETTY_NAME=\"");
    let key = "PRETTY_NAME="@;
    let value = seq!['"'] + name + seq!['"'];
    assert(("PRETTY_NAME=\""@ + name).push('"') =~= key + value);
    assert(!key.contains('\n'));
    lemma_no_newline(key, value, name);
    text::law_pieces_of_joined_texts(key + value, rest, '\n');
    lemma_some_piece(rest);
    law_first_line_with_the_key_counts(value, text::pieces(rest, '\n'), key);
    lemma_quotes_are_taken_off(name);
}

proof fn lemma_no_newline(key: Seq<char>, value: Seq<char>, name: Seq<char>)
    requires
        !key.contains('\n'),
        !name.contains('\n'),
        value == seq!['"'] + name + seq!['"'],
    ensures
        !(key + value).contains('\n'),
{
    let whole = key + value;
    if whole.contains('\n') {
        let k = choose|k: int| 0 <= k < whole.len() && whole[k] == '\n';
        if k < key.len() {
            assert(key.contains(key[k]));
        } else if key.len() < k < whole.len() - 1 {
            assert(name.contains(name[k - key.len() - 1]));
        }
    }
}

proof fn lemma_quotes_are_taken_off(name: Seq<char>)
    requires
        name.len() > 0,
        name[0] != '"',
        name.last() != '"',
    ensures
        text::trim_end(text::trim_start(seq!['"'] + name + seq!['"'], '"'), '"') == name,
{
    let value = seq!['"'] + name + seq!['"'];
    let rest = name + seq!['"'];
    assert(value.drop_first() =~= rest);
    assert(rest[0] == name[0]);
    assert(text::trim_start(rest, '"') == rest);
    assert(rest.drop_last() =~= name);
    assert(text::trim_end(name, '"') == name);
}

proof fn lemma_some_piece(s: Seq<char>)
    ensures
        text::pieces(s, '\n').len() > 0,
{
}

/// Windows goes by its version: what stands behind the word and in front of the closing bracket, without the spaces
/// around it.
#[verifier::spinoff_prover]
pub proof fn law_windows_goes_by_its_version(before: Seq<char>, version: Seq<char>, behind: Seq<char>)
    requires
        !before.contains('['),
        !version.contains(']'),
        !version.contains('['),
        !behind.contains('['),
        version.len() > 0,
        !is_space(version[0]),
        !is_space(version.last()),
    ensures
        windows_version(before + "[Version"@ + (seq![' '] + version + seq![']'] + behind)) == Some(version),
{
    reveal_strlit("[Version");
    let mark = "[Version"@;
    let rest = seq![' '] + version + seq![']'] + behind;
    let report = before + mark + rest;
    text::law_search_finds_the_first(before, mark, rest);
    let k = text::find(report, mark)->0;
    if k < before.len() {
        assert(report.skip(k as int).take(8)[0] == report[k as int]);
        assert(before.contains(before[k as int]));
    }
    assert(report.skip(k as int + 8) =~= rest);
    text::lemma_find(rest, mark);
    if let Some(m) = text::find(rest, mark) {
        assert(rest.skip(m as int).take(8)[0] == rest[m as int]);
        let c = rest[m as int];
        if 0 < m <= version.len() {
            assert(version.contains(version[m - 1]));
        } else if m > version.len() + 1 {
            assert(behind.contains(behind[m - version.len() - 2]));
        }
        assert(false);
    }
    let head = seq![' '] + version;
    if head.contains(']') {
        let j = choose|j: int| 0 <= j < head.len() && head[j] == ']';
        if j > 0 {
            assert(version.contains(version[j - 1]));
        }
    }
    assert(rest =~= head.push(']') + behind);
    text::law_split_at_the_first(head, behind, ']');
    assert(head.drop_first() =~= version);
    reveal_with_fuel(without_leading_space, 2);
    reveal_with_fuel(without_trailing_space, 2);
}

/// A worker that starts on a file shows it from its beginning, and one that runs out of files is idle; the other workers
/// and everything else stay as they were.
pub proof fn law_workers_show_what_they_do(
    started: &mut Progress,
    stopped: &mut Progress,
    w: usize,
    name: &str,
    total: u64,
)
    requires
        w < old(started).workers@.len(),
        w < old(stopped).workers@.len(),
        call_ensures(Progress::worker_start, (started, w, name, total), ()),
        call_ensures(Progress::worker_idle, (stopped, w), ()),
    ensures
        ({
            let slot = final(started).workers@[w as int];
            slot.active && slot.cur == 0 && slot.total == total && slot.name@ == name@
        }),
        !final(stopped).workers@[w as int].active,
        final(stopped).workers@[w as int].name@ == "idle"@,
        forall|k: int|
            0 <= k < old(started).workers@.len() && k != w ==> #[trigger] final(started).workers@[k] == old(
                started,
            ).workers@[k],
        forall|k: int|
            0 <= k < old(stopped).workers@.len() && k != w ==> #[trigger] final(stopped).workers@[k] == old(
                stopped,
            ).workers@[k],
        final(started).done_bytes == old(started).done_bytes,
        final(stopped).done_bytes == old(stopped).done_bytes,
{
}

/// A finished file is counted once, and fetched bytes one by one; neither changes the other.
pub proof fn law_files_and_bytes_are_counted(files: &mut Progress, bytes: &mut Progress, n: u64)
    requires
        old(files).files_done < usize::MAX,
        old(bytes).done_bytes + n <= u64::MAX,
        call_ensures(Progress::file_done, (files,), ()),
        call_ensures(Progress::add_bytes, (bytes, n), ()),
    ensures
        final(files).files_done == old(files).files_done + 1,
        final(files).done_bytes == old(files).done_bytes,
        final(bytes).done_bytes == old(bytes).done_bytes + n,
        final(bytes).files_done == old(bytes).files_done,
{
}

/// The header names the machine, the release with the platform it was built for, and the mirror; it is shown exactly
/// where there is a release to name.
pub proof fn law_header_names_the_release(header: Header, rows: Vec<(String, String)>, shown: bool)
    requires
        call_ensures(Header::rows, (&header,), rows),
        call_ensures(Header::is_shown, (&header,), shown),
    ensures
        rows@.len() == 3,
        rows@[0].1@ == header.system@,
        rows@[1].1@ == header.release@ + "   ("@ + header.platform@ + " build)"@,
        rows@[2].1@ == header.mirror@,
        shown <==> header.release@.len() > 0,
{
}

} // verus!
