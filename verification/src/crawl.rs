//! The incremental crawl of a directory: which of its files are sent to the index,
//! and which are taken out of it.
//!
//! A [`Crawl`] says what is to be done next, and is resumed with what came of it.
use vstd::hash_map::StringHashMap;
use vstd::hash_set::StringHashSet;
use vstd::prelude::*;

use crate::api_client;
use crate::api_client::{
    ApiClient, Chunk, ChunkView, FileSyncInfo, HttpRequest, Method, RequestView,
};
use crate::catalog::CatalogConfig;
use crate::outside;
use crate::paths;
use crate::text;

verus! {

/// What a crawl did.
#[derive(Clone, Copy, Debug, PartialEq, Eq, Structural)]
pub struct CrawlStats {
    pub new_files: usize,
    pub changed_files: usize,
    pub unchanged_files: usize,
    pub deleted_files: usize,
    pub chunks_ingested: usize,
}

/// A file that was met in the directory.
pub struct FoundFile {
    pub path: String,
    /// Whether the path is one that is never indexed.
    pub skip: bool,
}

/// A file that is indexed: where it is, and its path seen from the directory.
pub struct SourceFile {
    pub path: String,
    pub relative: String,
}

// ---------------------------------------------------------------------------
// Files
// ---------------------------------------------------------------------------

/// Whether a file that was met is indexed.
pub open spec fn wanted(f: FoundFile) -> bool {
    !f.skip && paths::has_text_extension(outside::lowercase(f.path@))
}

/// The files that are indexed, each with its path seen from the directory.
pub open spec fn wanted_files(found: Seq<FoundFile>, directory: Seq<char>) -> Seq<
    (Seq<char>, Seq<char>),
>
    decreases found.len(),
{
    if found.len() == 0 {
        Seq::empty()
    } else {
        let before = wanted_files(found.drop_last(), directory);
        let f = found.last();
        if wanted(f) {
            before.push((f.path@, paths::seen_from(f.path@, directory)))
        } else {
            before
        }
    }
}

/// The paths of some files.
pub open spec fn files_view(files: Seq<SourceFile>) -> Seq<(Seq<char>, Seq<char>)> {
    files.map_values(|f: SourceFile| (f.path@, f.relative@))
}

/// Whether a file that was met is indexed.
pub fn is_wanted(f: &FoundFile) -> (r: bool)
    ensures
        r == wanted(*f),
        !f.skip && paths::named_as_text(f.path@) ==> r,
        text::all_ascii(f.path@) ==> r == (!f.skip && paths::named_as_text(f.path@)),
{
    !f.skip && paths::is_text_file(f.path.as_str())
}

/// The files that are indexed.
pub fn select_files(found: &Vec<FoundFile>, directory: &str) -> (r: Vec<SourceFile>)
    ensures
        files_view(r@) == wanted_files(found@, directory@),
{
    let mut r: Vec<SourceFile> = Vec::new();
    let mut i: usize = 0;
    assert(files_view(r@) == wanted_files(found@.take(0), directory@));
    while i < found.len()
        invariant
            i <= found@.len(),
            files_view(r@) == wanted_files(found@.take(i as int), directory@),
        decreases found@.len() - i,
    {
        let ghost upto = found@.take(i + 1);
        let ghost before = files_view(r@);
        assert(upto.drop_last() == found@.take(i as int));
        assert(upto.last() == found@[i as int]);
        if is_wanted(&found[i]) {
            let path = found[i].path.clone();
            let relative = paths::relative_path(path.as_str(), directory);
            r.push(SourceFile { path, relative });
            assert(files_view(r@) == before.push((path@, relative@)));
        }
        i += 1;
    }
    assert(found@.take(i as int) == found@);
    r
}

// ---------------------------------------------------------------------------
// Contents
// ---------------------------------------------------------------------------

/// The lower-case hexadecimal digit of a value below sixteen.
pub open spec fn hex_lower(d: int) -> char {
    if d < 10 {
        (48 + d) as char
    } else {
        (87 + d) as char
    }
}

/// Bytes in hexadecimal, two digits each.
pub open spec fn hex(bytes: Seq<u8>) -> Seq<char>
    decreases bytes.len(),
{
    if bytes.len() == 0 {
        Seq::empty()
    } else {
        hex(bytes.drop_last()).push(hex_lower(bytes.last() as int / 16)).push(
            hex_lower(bytes.last() as int % 16),
        )
    }
}

/// The hash by which the index knows a content: the SHA-256 digest of its UTF-8 bytes.
pub open spec fn hash_of(content: Seq<char>) -> Seq<char> {
    "sha256:"@ + hex(outside::sha256(vstd::utf8::encode_utf8(content)))
}

/// The lower-case hexadecimal digit of a value below sixteen.
fn hex_digit(d: u8) -> (r: char)
    requires
        d < 16,
    ensures
        r == hex_lower(d as int),
{
    if d < 10 {
        (48 + d) as char
    } else {
        (87 + d) as char
    }
}

/// Bytes in hexadecimal, two digits each.
pub fn hex_text(bytes: &Vec<u8>) -> (r: String)
    ensures
        r@ == hex(bytes@),
{
    let mut r = String::new();
    let mut i: usize = 0;
    while i < bytes.len()
        invariant
            i <= bytes@.len(),
            r@ == hex(bytes@.take(i as int)),
        decreases bytes@.len() - i,
    {
        let b = bytes[i];
        r.push(hex_digit(b / 16));
        r.push(hex_digit(b % 16));
        proof {
            let upto = bytes@.take(i + 1);
            assert(upto.drop_last() == bytes@.take(i as int));
            assert(upto.last() == b);
        }
        i += 1;
    }
    assert(bytes@.take(i as int) == bytes@);
    r
}

/// The hash by which the index knows a content.
pub fn content_hash(content: &str) -> (r: String)
    ensures
        r@ == hash_of(content@),
        r@ == "sha256:"@ + hex(outside::sha256(vstd::utf8::encode_utf8(content@))),
        is_hex_of(r@.skip(7), outside::sha256(vstd::utf8::encode_utf8(content@))),
{
    proof {
        let digits = hex(outside::sha256(vstd::utf8::encode_utf8(content@)));
        lemma_hex(outside::sha256(vstd::utf8::encode_utf8(content@)));
        reveal_strlit("sha256:");
        assert(("sha256:"@ + digits).skip(7) == digits);
    }
    let digest = outside::sha256_digest(content.as_bytes());
    let mut r = "sha256:".to_owned();
    r.append(hex_text(&digest).as_str());
    r
}

/// Whether the index knows a content and holds all of it.
pub open spec fn up_to_date(info: FileSyncInfo, hash: Seq<char>) -> bool {
    info.content_hash@ == hash && info.file_complete
}

/// Whether the index knows a content of this hash and holds all of it.
pub fn is_up_to_date(info: &FileSyncInfo, hash: &str) -> (r: bool)
    ensures
        r == up_to_date(*info, hash@),
{
    text::same_text(info.content_hash.as_str(), hash) && info.file_complete
}

/// A chunk without the marks of a fallback in its breadcrumb.
pub open spec fn unmarked(c: ChunkView) -> ChunkView {
    ChunkView { breadcrumb: text::without_all(c.breadcrumb, ":[fallback-split]"@), ..c }
}

/// Some chunks without those marks.
pub open spec fn all_unmarked(chunks: Seq<ChunkView>) -> Seq<ChunkView> {
    chunks.map_values(|c: ChunkView| unmarked(c))
}

/// Chunks without the marks of a fallback in their breadcrumbs.
pub fn remove_marks(chunks: Vec<Chunk>) -> (r: Vec<Chunk>)
    ensures
        api_client::chunks_of(r@) == all_unmarked(api_client::chunks_of(chunks@)),
{
    let ghost given = api_client::chunks_of(chunks@);
    let mut all = chunks;
    let mut i: usize = 0;
    while i < all.len()
        invariant
            i <= all@.len() == given.len(),
            forall|k: int| 0 <= k < i ==> (#[trigger] all@[k])@ == unmarked(given[k]),
            forall|k: int| i <= k < given.len() ==> (#[trigger] all@[k])@ == given[k],
        decreases all@.len() - i,
    {
        let breadcrumb = text::remove_all(all[i].breadcrumb.as_str(), ":[fallback-split]");
        all[i].breadcrumb = breadcrumb;
        i += 1;
    }
    assert(api_client::chunks_of(all@) == all_unmarked(given));
    all
}

// ---------------------------------------------------------------------------
// The crawl
// ---------------------------------------------------------------------------

/// What a crawl is about to do.
#[derive(Clone, Copy, Debug, PartialEq, Eq, Structural)]
pub enum Phase {
    /// To read a file.
    Reading,
    /// To take the old version of a file out of the index.
    Replacing,
    /// To cut a file into chunks.
    Chunking,
    /// To hand the chunks of a file to the index.
    Ingesting,
    /// To take a file out of the index that is no longer in the directory.
    Clearing,
}

/// How the package of a file gets its name.
pub enum PackageName {
    /// It is looked up in the monorepo.
    Lookup,
    /// It is this.
    Named(String),
}

/// What is to be done next.
pub enum CrawlAction {
    /// The file is read; what it holds goes to the crawl, or that it cannot be read.
    Read { path: String },
    /// The file is taken out of the index; what came of it goes to the crawl.
    Delete { relative_path: String },
    /// The file is cut into chunks of the target size; what came of it goes to the
    /// crawl.
    Chunk { path: String, package: PackageName, target_size: usize },
    /// The chunks that the crawl holds are handed to the index; what came of it goes to
    /// the crawl.
    Ingest,
}

/// What came of what was to be done.
pub enum CrawlEvent {
    /// What the file holds; none where it cannot be read as text.
    Content(Option<String>),
    Deleted(Result<(), String>),
    Chunked(Result<Vec<Chunk>, String>),
    /// How many chunks the index took.
    Ingested(Result<usize, String>),
}

/// What a crawl works on.
struct CrawlData {
    catalog: String,
    monorepo: bool,
    files: Vec<SourceFile>,
    existing: StringHashMap<FileSyncInfo>,
    listed: Vec<String>,
    on_disk: StringHashSet,
    stats: CrawlStats,
}

/// A crawl under way.
pub struct Crawl {
    data: CrawlData,
    phase: Phase,
    at: usize,
    pending: Vec<Chunk>,
}

/// Where a crawl has got to.
pub enum CrawlStep {
    /// It goes on with [`Crawl::action`].
    Go(Crawl),
    /// It is done.
    Done(CrawlStats),
    /// It was given up.
    Failed(String),
}

/// What a crawl is.
pub struct CrawlView {
    pub catalog: Seq<char>,
    pub monorepo: bool,
    /// The files that are indexed, each with its path seen from the directory.
    pub files: Seq<(Seq<char>, Seq<char>)>,
    /// What the index knows, by path.
    pub existing: Map<Seq<char>, FileSyncInfo>,
    /// The paths that the index knows.
    pub listed: Seq<Seq<char>>,
    pub phase: Phase,
    /// The file, or while clearing the listed path, that is dealt with.
    pub at: int,
    /// The chunks of the file.
    pub pending: Seq<ChunkView>,
    pub stats: CrawlStats,
}

/// What a step is.
pub enum CrawlStepView {
    Go(CrawlView),
    Done(CrawlStats),
    Failed(Seq<char>),
}

/// What an event is.
pub enum EventView {
    Content(Option<Seq<char>>),
    Deleted(Result<(), Seq<char>>),
    Chunked(Result<Seq<ChunkView>, Seq<char>>),
    Ingested(Result<usize, Seq<char>>),
}

impl View for Crawl {
    type V = CrawlView;

    closed spec fn view(&self) -> CrawlView {
        CrawlView {
            catalog: self.data.catalog@,
            monorepo: self.data.monorepo,
            files: files_view(self.data.files@),
            existing: self.data.existing@,
            listed: self.data.listed@.map_values(|s: String| s@),
            phase: self.phase,
            at: self.at as int,
            pending: api_client::chunks_of(self.pending@),
            stats: self.data.stats,
        }
    }
}

impl View for CrawlStep {
    type V = CrawlStepView;

    open spec fn view(&self) -> CrawlStepView {
        match self {
            CrawlStep::Go(crawl) => CrawlStepView::Go(crawl@),
            CrawlStep::Done(stats) => CrawlStepView::Done(*stats),
            CrawlStep::Failed(e) => CrawlStepView::Failed(e@),
        }
    }
}

impl View for CrawlEvent {
    type V = EventView;

    open spec fn view(&self) -> EventView {
        match self {
            CrawlEvent::Content(c) => EventView::Content(text::opt_string(*c)),
            CrawlEvent::Deleted(Ok(())) => EventView::Deleted(Ok(())),
            CrawlEvent::Deleted(Err(e)) => EventView::Deleted(Err(e@)),
            CrawlEvent::Chunked(Ok(chunks)) => EventView::Chunked(
                Ok(api_client::chunks_of(chunks@)),
            ),
            CrawlEvent::Chunked(Err(e)) => EventView::Chunked(Err(e@)),
            CrawlEvent::Ingested(Ok(n)) => EventView::Ingested(Ok(*n)),
            CrawlEvent::Ingested(Err(e)) => EventView::Ingested(Err(e@)),
        }
    }
}

/// What the index knows, by path. Of two entries for a path the later counts.
pub open spec fn known(listing: Seq<(String, FileSyncInfo)>) -> Map<Seq<char>, FileSyncInfo>
    decreases listing.len(),
{
    if listing.len() == 0 {
        Map::empty()
    } else {
        known(listing.drop_last()).insert(listing.last().0@, listing.last().1)
    }
}

/// The paths that the index knows, in the order in which they were listed.
pub open spec fn listed_paths(listing: Seq<(String, FileSyncInfo)>) -> Seq<Seq<char>> {
    listing.map_values(|e: (String, FileSyncInfo)| e.0@)
}

/// The paths of some files, seen from the directory.
pub open spec fn relatives(files: Seq<(Seq<char>, Seq<char>)>) -> Seq<Seq<char>> {
    files.map_values(|f: (Seq<char>, Seq<char>)| f.1)
}

/// No counts.
pub open spec fn no_stats() -> CrawlStats {
    CrawlStats {
        new_files: 0,
        changed_files: 0,
        unchanged_files: 0,
        deleted_files: 0,
        chunks_ingested: 0,
    }
}

/// What follows when the listed paths before `i` have been dealt with: the first path
/// from there on that is no longer in the directory is taken out of the index.
pub open spec fn cleared_from(c: CrawlView, i: int) -> CrawlStepView
    decreases c.listed.len() - i,
{
    if i >= c.listed.len() {
        CrawlStepView::Done(c.stats)
    } else if relatives(c.files).contains(c.listed[i]) {
        cleared_from(c, i + 1)
    } else {
        CrawlStepView::Go(
            CrawlView { phase: Phase::Clearing, at: i, pending: Seq::empty(), ..c },
        )
    }
}

/// What follows when the files before `i` have been dealt with: the next file is read,
/// or the index is cleared where there is none.
pub open spec fn read_from(c: CrawlView, i: int) -> CrawlStepView {
    if i < c.files.len() {
        CrawlStepView::Go(CrawlView { phase: Phase::Reading, at: i, pending: Seq::empty(), ..c })
    } else {
        cleared_from(c, 0)
    }
}

/// The crawl of some files, against what the index knows.
pub open spec fn crawl_started(
    catalog: Seq<char>,
    monorepo: bool,
    files: Seq<(Seq<char>, Seq<char>)>,
    listing: Seq<(String, FileSyncInfo)>,
) -> CrawlStepView {
    read_from(
        CrawlView {
            catalog,
            monorepo,
            files,
            existing: known(listing),
            listed: listed_paths(listing),
            phase: Phase::Reading,
            at: 0,
            pending: Seq::empty(),
            stats: no_stats(),
        },
        0,
    )
}

/// Whether an event can come of what a crawl is about to do, and what it adds can be
/// counted.
pub open spec fn expected(c: CrawlView, event: EventView) -> bool {
    match event {
        EventView::Content(_) => c.phase == Phase::Reading,
        EventView::Deleted(_) => c.phase == Phase::Replacing || c.phase == Phase::Clearing,
        EventView::Chunked(_) => c.phase == Phase::Chunking,
        EventView::Ingested(Ok(n)) => c.phase == Phase::Ingesting && c.stats.chunks_ingested + n
            <= usize::MAX,
        EventView::Ingested(Err(_)) => c.phase == Phase::Ingesting,
    }
}

/// What follows when a file has been read: nothing where the index is up to date, else
/// its old version is replaced, or it is new.
pub open spec fn content_read(c: CrawlView, content: Seq<char>) -> CrawlStepView {
    let relative = c.files[c.at].1;
    if c.existing.contains_key(relative) {
        if up_to_date(c.existing[relative], hash_of(content)) {
            read_from(
                CrawlView {
                    stats: CrawlStats {
                        unchanged_files: (c.stats.unchanged_files + 1) as usize,
                        ..c.stats
                    },
                    ..c
                },
                c.at + 1,
            )
        } else {
            CrawlStepView::Go(CrawlView { phase: Phase::Replacing, ..c })
        }
    } else {
        CrawlStepView::Go(
            CrawlView {
                phase: Phase::Chunking,
                stats: CrawlStats { new_files: (c.stats.new_files + 1) as usize, ..c.stats },
                ..c
            },
        )
    }
}

/// What an event leads to. A file that cannot be read, cut or ingested is passed over;
/// a deletion that fails ends the crawl.
pub open spec fn crawl_resumed(c: CrawlView, event: EventView) -> CrawlStepView {
    match event {
        EventView::Content(None) => read_from(c, c.at + 1),
        EventView::Content(Some(content)) => content_read(c, content),
        EventView::Deleted(Err(e)) => CrawlStepView::Failed(e),
        EventView::Deleted(Ok(())) => if c.phase == Phase::Clearing {
            cleared_from(
                CrawlView {
                    stats: CrawlStats {
                        deleted_files: (c.stats.deleted_files + 1) as usize,
                        ..c.stats
                    },
                    ..c
                },
                c.at + 1,
            )
        } else {
            CrawlStepView::Go(
                CrawlView {
                    phase: Phase::Chunking,
                    stats: CrawlStats {
                        changed_files: (c.stats.changed_files + 1) as usize,
                        ..c.stats
                    },
                    ..c
                },
            )
        },
        EventView::Chunked(Err(_)) => read_from(c, c.at + 1),
        EventView::Chunked(Ok(chunks)) => CrawlStepView::Go(
            CrawlView { phase: Phase::Ingesting, pending: all_unmarked(chunks), ..c },
        ),
        EventView::Ingested(Err(_)) => read_from(c, c.at + 1),
        EventView::Ingested(Ok(n)) => read_from(
            CrawlView {
                stats: CrawlStats {
                    chunks_ingested: (c.stats.chunks_ingested + n) as usize,
                    ..c.stats
                },
                ..c
            },
            c.at + 1,
        ),
    }
}

/// The name of the package of a file in a folder: that of its directory, or that of the
/// catalog where it has none.
pub open spec fn folder_package(directory: Option<Seq<char>>, catalog: Seq<char>) -> Seq<char> {
    match directory {
        Some(d) => d,
        None => catalog,
    }
}

/// Whether a package name is the one that a file has: the one that is looked up in a
/// monorepo, the one that its directory gives elsewhere. Which one that is, is stated of
/// the paths that every platform reads alike; of other paths, that it is a part of the
/// path, or the name of the catalog.
pub open spec fn package_fits(c: CrawlView, path: Seq<char>, package: PackageName) -> bool {
    match package {
        PackageName::Lookup => c.monorepo,
        PackageName::Named(name) => {
            &&& !c.monorepo
            &&& paths::portable(path) ==> name@ == folder_package(
                paths::directory_name(path),
                c.catalog,
            )
            &&& name@ == c.catalog || (name@.len() > 0 && text::occurs_in(name@, path))
        },
    }
}

/// Whether an action is what a crawl is about to do.
pub open spec fn action_fits(c: CrawlView, action: CrawlAction) -> bool {
    match action {
        CrawlAction::Read { path } => c.phase == Phase::Reading && path@ == c.files[c.at].0,
        CrawlAction::Delete { relative_path } => {
            ||| c.phase == Phase::Replacing && relative_path@ == c.files[c.at].1
            ||| c.phase == Phase::Clearing && relative_path@ == c.listed[c.at]
        },
        CrawlAction::Chunk { path, package, target_size } => {
            &&& c.phase == Phase::Chunking
            &&& path@ == c.files[c.at].0
            &&& package_fits(c, path@, package)
            &&& target_size == 6000
        },
        CrawlAction::Ingest => c.phase == Phase::Ingesting,
    }
}

/// The request that a crawl is about to make: to take a file out of its catalog, or to
/// hand it the chunks of a file under a label. There is none where the index is not asked
/// for anything, or where there are no chunks.
pub open spec fn asked_of(
    client: ApiClient,
    c: CrawlView,
    label: Seq<char>,
) -> Option<RequestView> {
    match c.phase {
        Phase::Replacing => Some(
            client.asks(
                Method::Delete,
                api_client::file_path(c.catalog, c.files[c.at].1),
                None,
            ),
        ),
        Phase::Clearing => Some(
            client.asks(Method::Delete, api_client::file_path(c.catalog, c.listed[c.at]), None),
        ),
        Phase::Ingesting => if c.pending.len() > 0 {
            Some(
                client.asks(
                    Method::Post,
                    "/v1/ingest"@,
                    Some(api_client::ingest_body(c.pending, label)),
                ),
            )
        } else {
            None
        },
        _ => None,
    }
}

/// Those of some listed paths that are no longer in the directory, in their order.
pub open spec fn stale_paths(files: Seq<(Seq<char>, Seq<char>)>, listed: Seq<Seq<char>>) -> Seq<
    Seq<char>,
>
    decreases listed.len(),
{
    if listed.len() == 0 {
        Seq::empty()
    } else {
        let before = stale_paths(files, listed.drop_last());
        if relatives(files).contains(listed.last()) {
            before
        } else {
            before.push(listed.last())
        }
    }
}

/// How many of some listed paths are no longer in the directory.
pub open spec fn stale(files: Seq<(Seq<char>, Seq<char>)>, listed: Seq<Seq<char>>) -> nat {
    stale_paths(files, listed).len()
}

/// How many files a crawl has decided on.
pub open spec fn decided(stats: CrawlStats) -> int {
    stats.new_files + stats.changed_files + stats.unchanged_files
}

/// Whether a crawl is as crawls are.
pub open spec fn crawl_wf(c: CrawlView) -> bool {
    &&& forall|i: int| 0 <= i < c.listed.len() ==> c.existing.contains_key(#[trigger] c.listed[i])
    &&& match c.phase {
        Phase::Clearing => {
            &&& 0 <= c.at < c.listed.len()
            &&& !relatives(c.files).contains(c.listed[c.at])
            &&& decided(c.stats) <= c.files.len()
            &&& c.stats.deleted_files == stale(c.files, c.listed.take(c.at))
        },
        _ => {
            &&& 0 <= c.at < c.files.len()
            &&& c.phase == Phase::Replacing ==> c.existing.contains_key(c.files[c.at].1)
            &&& decided(c.stats) <= c.at + if c.phase == Phase::Chunking || c.phase
                == Phase::Ingesting {
                1int
            } else {
                0int
            }
            &&& c.stats.deleted_files == 0
        },
    }
}

/// What a crawl works on, before anything was done.
spec fn fresh(data: CrawlData) -> CrawlView {
    CrawlView {
        catalog: data.catalog@,
        monorepo: data.monorepo,
        files: files_view(data.files@),
        existing: data.existing@,
        listed: data.listed@.map_values(|s: String| s@),
        phase: Phase::Reading,
        at: 0,
        pending: Seq::empty(),
        stats: data.stats,
    }
}

/// Whether the set of paths and the list of known paths are those that they stand for.
spec fn data_wf(data: CrawlData) -> bool {
    let c = fresh(data);
    &&& forall|r: Seq<char>| #[trigger] data.on_disk@.contains(r) <==> relatives(c.files).contains(r)
    &&& forall|i: int| 0 <= i < c.listed.len() ==> c.existing.contains_key(#[trigger] c.listed[i])
}

/// Where two crawls work on the same, the same is cleared.
proof fn lemma_cleared_alike(a: CrawlView, b: CrawlView, i: int)
    requires
        a == (CrawlView { phase: a.phase, at: a.at, pending: a.pending, ..b }),
    ensures
        cleared_from(a, i) == cleared_from(b, i),
    decreases a.listed.len() - i,
{
    if i < a.listed.len() && relatives(a.files).contains(a.listed[i]) {
        lemma_cleared_alike(a, b, i + 1);
    }
}

/// One listed path more.
proof fn lemma_stale_step(files: Seq<(Seq<char>, Seq<char>)>, listed: Seq<Seq<char>>, i: int)
    requires
        0 <= i < listed.len(),
    ensures
        stale(files, listed.take(i + 1)) == stale(files, listed.take(i)) + if relatives(
            files,
        ).contains(listed[i]) {
            0nat
        } else {
            1nat
        },
        stale(files, listed.take(i)) <= i,
        stale_paths(files, listed.take(i + 1)) == if relatives(files).contains(listed[i]) {
            stale_paths(files, listed.take(i))
        } else {
            stale_paths(files, listed.take(i)).push(listed[i])
        },
    decreases i,
{
    assert(listed.take(i + 1).drop_last() == listed.take(i));
    assert(listed.take(i + 1).last() == listed[i]);
    if i > 0 {
        lemma_stale_step(files, listed, i - 1);
    } else {
        assert(listed.take(0) == Seq::<Seq<char>>::empty());
    }
}

/// What is listed is known.
proof fn lemma_listed_is_known(listing: Seq<(String, FileSyncInfo)>)
    ensures
        forall|i: int|
            0 <= i < listing.len() ==> known(listing).contains_key(
                #[trigger] listed_paths(listing)[i],
            ),
    decreases listing.len(),
{
    if listing.len() > 0 {
        let rest = listing.drop_last();
        lemma_listed_is_known(rest);
        assert forall|i: int| 0 <= i < listing.len() implies known(listing).contains_key(
            #[trigger] listed_paths(listing)[i],
        ) by {
            if i < rest.len() {
                assert(listed_paths(rest)[i] == listed_paths(listing)[i]);
            }
        }
    }
}

/// Goes on behind the listed paths before `from`.
fn clear_from(data: CrawlData, from: usize) -> (r: CrawlStep)
    requires
        data_wf(data),
        from <= data.listed@.len(),
        decided(data.stats) <= data.files@.len(),
        data.stats.deleted_files == stale(fresh(data).files, fresh(data).listed.take(from as int)),
    ensures
        r@ == cleared_from(fresh(data), from as int),
{
    let ghost c = fresh(data);
    let mut i: usize = from;
    while i < data.listed.len()
        invariant
            data_wf(data),
            c == fresh(data),
            from <= i <= data.listed@.len(),
            decided(data.stats) <= data.files@.len(),
            data.stats.deleted_files == stale(c.files, c.listed.take(i as int)),
            cleared_from(c, i as int) == cleared_from(c, from as int),
        decreases data.listed@.len() - i,
    {
        proof {
            lemma_stale_step(c.files, c.listed, i as int);
            assert(c.listed[i as int] == data.listed@[i as int]@);
        }
        if !data.on_disk.contains(data.listed[i].as_str()) {
            let pending: Vec<Chunk> = Vec::new();
            assert(api_client::chunks_of(pending@) == Seq::<ChunkView>::empty());
            return CrawlStep::Go(Crawl { data, phase: Phase::Clearing, at: i, pending });
        }
        i += 1;
    }
    CrawlStep::Done(data.stats)
}

/// Goes on behind the files before `from`.
fn go_on_from(data: CrawlData, from: usize) -> (r: CrawlStep)
    requires
        data_wf(data),
        from <= data.files@.len(),
        decided(data.stats) <= from,
        data.stats.deleted_files == 0,
    ensures
        r@ == read_from(fresh(data), from as int),
{
    if from < data.files.len() {
        let pending: Vec<Chunk> = Vec::new();
        assert(api_client::chunks_of(pending@) == Seq::<ChunkView>::empty());
        CrawlStep::Go(Crawl { data, phase: Phase::Reading, at: from, pending })
    } else {
        assert(fresh(data).listed.take(0) == Seq::<Seq<char>>::empty());
        clear_from(data, 0)
    }
}

/// The paths of some files, seen from the directory, as a set.
fn paths_on_disk(files: &Vec<SourceFile>) -> (r: StringHashSet)
    ensures
        forall|p: Seq<char>| #[trigger]
            r@.contains(p) <==> relatives(files_view(files@)).contains(p),
{
    let ghost all = relatives(files_view(files@));
    let mut r = StringHashSet::new();
    let mut i: usize = 0;
    while i < files.len()
        invariant
            i <= files@.len(),
            all == relatives(files_view(files@)),
            forall|p: Seq<char>| #[trigger] r@.contains(p) <==> all.take(i as int).contains(p),
        decreases files@.len() - i,
    {
        let ghost before = r@;
        r.insert(files[i].relative.clone());
        proof {
            let upto = all.take(i + 1);
            assert(upto == all.take(i as int).push(all[i as int]));
            assert(all[i as int] == files@[i as int].relative@);
            assert forall|p: Seq<char>| #[trigger] r@.contains(p) <==> upto.contains(p) by {
                if upto.contains(p) {
                    let k = upto.index_of(p);
                    if k < i {
                        assert(all.take(i as int)[k] == p);
                    }
                }
                if before.contains(p) {
                    let k = all.take(i as int).index_of(p);
                    assert(upto[k] == p);
                }
                assert(upto[i as int] == all[i as int]);
            }
        }
        i += 1;
    }
    assert(all.take(i as int) == all);
    r
}

impl Crawl {
    /// The crawl is as crawls are.
    #[verifier::type_invariant]
    spec fn wf(&self) -> bool {
        crawl_wf(self@) && data_wf(self.data)
    }

    /// Begins the crawl of a directory: of the files that were found in it, against what
    /// the index knows. The listing has one entry for a path.
    pub fn start(
        catalog: &str,
        config: &CatalogConfig,
        found: &Vec<FoundFile>,
        listing: Vec<(String, FileSyncInfo)>,
    ) -> (r: CrawlStep)
        ensures
            r@ == crawl_started(
                catalog@,
                config.catalog_type@ == "monorepo"@,
                wanted_files(found@, config.path@),
                listing@,
            ),
    {
        let files = select_files(found, config.path.as_str());
        let on_disk = paths_on_disk(&files);
        let monorepo = text::same_text(config.catalog_type.as_str(), "monorepo");
        let mut existing: StringHashMap<FileSyncInfo> = StringHashMap::new();
        let mut listed: Vec<String> = Vec::new();
        let ghost all = listing@;
        for entry in it: listing
            invariant
                it.seq() == all,
                existing@ == known(all.take(it.index())),
                listed@.map_values(|s: String| s@) == listed_paths(all.take(it.index())),
        {
            let (path, info) = entry;
            proof {
                let i = it.index();
                let upto = all.take(i + 1);
                assert(upto.drop_last() == all.take(i));
                assert(upto.last() == all[i]);
                assert(listed_paths(upto) == listed_paths(all.take(i)).push(path@));
                assert(listed@.push(path).map_values(|s: String| s@) == listed@.map_values(
                    |s: String| s@,
                ).push(path@));
            }
            listed.push(path.clone());
            existing.insert(path, info);
        }
        proof {
            assert(all.take(all.len() as int) == all);
            lemma_listed_is_known(all);
        }
        let stats = CrawlStats {
            new_files: 0,
            changed_files: 0,
            unchanged_files: 0,
            deleted_files: 0,
            chunks_ingested: 0,
        };
        let data = CrawlData {
            catalog: catalog.to_owned(),
            monorepo,
            files,
            existing,
            listed,
            on_disk,
            stats,
        };
        go_on_from(data, 0)
    }

    /// What is to be done next.
    pub fn action(&self) -> (r: CrawlAction)
        ensures
            crawl_wf(self@),
            action_fits(self@, r),
    {
        proof {
            use_type_invariant(self);
        }
        match self.phase {
            Phase::Reading => CrawlAction::Read { path: self.data.files[self.at].path.clone() },
            Phase::Replacing => CrawlAction::Delete {
                relative_path: self.data.files[self.at].relative.clone(),
            },
            Phase::Chunking => {
                let path = self.data.files[self.at].path.clone();
                let package = if self.data.monorepo {
                    PackageName::Lookup
                } else {
                    PackageName::Named(
                        package_of_folder(path.as_str(), self.data.catalog.as_str()),
                    )
                };
                CrawlAction::Chunk { path, package, target_size: 6000 }
            },
            Phase::Ingesting => CrawlAction::Ingest,
            Phase::Clearing => CrawlAction::Delete {
                relative_path: self.data.listed[self.at].clone(),
            },
        }
    }

    /// The chunks that are handed to the index.
    pub fn chunks(&self) -> (r: &Vec<Chunk>)
        ensures
            api_client::chunks_of(r@) == self@.pending,
    {
        &self.pending
    }

    /// The request that is made next, where one is made.
    pub fn request(&self, client: &ApiClient, label: &str) -> (r: Option<HttpRequest>)
        ensures
            crawl_wf(self@),
            r is Some <==> asked_of(*client, self@, label@) is Some,
            r matches Some(q) ==> asked_of(*client, self@, label@) == Some(q@),
    {
        proof {
            use_type_invariant(self);
        }
        let catalog = self.data.catalog.as_str();
        match self.phase {
            Phase::Replacing => Some(
                client.delete_file(catalog, self.data.files[self.at].relative.as_str()),
            ),
            Phase::Clearing => Some(
                client.delete_file(catalog, self.data.listed[self.at].as_str()),
            ),
            Phase::Ingesting => client.ingest(&self.pending, label),
            _ => None,
        }
    }

    /// Whether the crawl can be resumed with an event: it can come of the action, and
    /// what it adds can be counted.
    pub fn can_resume(&self, event: &CrawlEvent) -> (r: bool)
        ensures
            r == expected(self@, event@),
    {
        match (event, self.phase) {
            (CrawlEvent::Content(_), Phase::Reading) => true,
            (CrawlEvent::Deleted(_), Phase::Replacing) => true,
            (CrawlEvent::Deleted(_), Phase::Clearing) => true,
            (CrawlEvent::Chunked(_), Phase::Chunking) => true,
            (CrawlEvent::Ingested(Ok(n)), Phase::Ingesting) => {
                usize::MAX - self.data.stats.chunks_ingested >= *n
            },
            (CrawlEvent::Ingested(Err(_)), Phase::Ingesting) => true,
            _ => false,
        }
    }

    /// What has been counted so far.
    pub fn counts(&self) -> (r: CrawlStats)
        ensures
            r == self@.stats,
    {
        self.data.stats
    }

    /// Goes on with what came of the action.
    pub fn resume(self, event: CrawlEvent) -> (r: CrawlStep)
        requires
            expected(self@, event@),
        ensures
            r@ == crawl_resumed(self@, event@),
    {
        proof {
            use_type_invariant(&self);
        }
        let ghost c = self@;
        let Crawl { data, phase, at, pending } = self;
        let mut data = data;
        // Counts stay below the lengths of these vectors, which a `usize` holds.
        let (_files, _listed): (usize, usize) = (data.files.len(), data.listed.len());
        match event {
            CrawlEvent::Content(None) => pass_file(data, at, Ghost(c)),
            CrawlEvent::Content(Some(content)) => {
                let hash = content_hash(content.as_str());
                let (is_known, is_current) = match data.existing.get(
                    data.files[at].relative.as_str(),
                ) {
                    Some(info) => (true, is_up_to_date(info, hash.as_str())),
                    None => (false, false),
                };
                if is_known && is_current {
                    data.stats.unchanged_files = data.stats.unchanged_files + 1;
                    return pass_file(
                        data,
                        at,
                        Ghost(
                            CrawlView {
                                stats: CrawlStats {
                                    unchanged_files: (c.stats.unchanged_files + 1) as usize,
                                    ..c.stats
                                },
                                ..c
                            },
                        ),
                    );
                }
                if is_known {
                    return CrawlStep::Go(Crawl { data, phase: Phase::Replacing, at, pending });
                }
                data.stats.new_files = data.stats.new_files + 1;
                CrawlStep::Go(Crawl { data, phase: Phase::Chunking, at, pending })
            },
            CrawlEvent::Deleted(Err(e)) => CrawlStep::Failed(e),
            CrawlEvent::Deleted(Ok(())) => {
                if let Phase::Clearing = phase {
                    proof {
                        lemma_stale_step(c.files, c.listed, at as int);
                    }
                    data.stats.deleted_files = data.stats.deleted_files + 1;
                    let ghost d = CrawlView {
                        stats: CrawlStats {
                            deleted_files: (c.stats.deleted_files + 1) as usize,
                            ..c.stats
                        },
                        ..c
                    };
                    proof {
                        lemma_cleared_alike(d, fresh(data), at + 1);
                    }
                    clear_from(data, at + 1)
                } else {
                    data.stats.changed_files = data.stats.changed_files + 1;
                    CrawlStep::Go(Crawl { data, phase: Phase::Chunking, at, pending })
                }
            },
            CrawlEvent::Chunked(Err(_)) => pass_file(data, at, Ghost(c)),
            CrawlEvent::Chunked(Ok(chunks)) => {
                let unmarked_chunks = remove_marks(chunks);
                CrawlStep::Go(
                    Crawl { data, phase: Phase::Ingesting, at, pending: unmarked_chunks },
                )
            },
            CrawlEvent::Ingested(Err(_)) => pass_file(data, at, Ghost(c)),
            CrawlEvent::Ingested(Ok(n)) => {
                data.stats.chunks_ingested = data.stats.chunks_ingested + n;
                pass_file(
                    data,
                    at,
                    Ghost(
                        CrawlView {
                            stats: CrawlStats {
                                chunks_ingested: (c.stats.chunks_ingested + n) as usize,
                                ..c.stats
                            },
                            ..c
                        },
                    ),
                )
            },
        }
    }
}

/// The name of the package of a file in a folder, from the name of its directory.
pub fn folder_package_name(directory: Option<&str>, catalog: &str) -> (r: String)
    ensures
        r@ == folder_package(text::opt_text(directory), catalog@),
{
    match directory {
        Some(name) => name.to_owned(),
        None => catalog.to_owned(),
    }
}

/// The name of the package of a file in a folder.
fn package_of_folder(path: &str, catalog: &str) -> (r: String)
    ensures
        paths::portable(path@) ==> r@ == folder_package(paths::directory_name(path@), catalog@),
        r@ == catalog@ || (r@.len() > 0 && text::occurs_in(r@, path@)),
{
    let directory = paths::parent_name(path);
    let name = match &directory {
        Some(d) => Some(d.as_str()),
        None => None,
    };
    folder_package_name(name, catalog)
}

/// Goes on behind the file at `at`. `c` is the crawl with the counts that are reached.
fn pass_file(data: CrawlData, at: usize, Ghost(c): Ghost<CrawlView>) -> (r: CrawlStep)
    requires
        data_wf(data),
        at < data.files@.len(),
        decided(data.stats) <= at + 1,
        data.stats.deleted_files == 0,
        c == (CrawlView { phase: c.phase, at: c.at, pending: c.pending, ..fresh(data) }),
    ensures
        r@ == read_from(c, at + 1),
{
    proof {
        lemma_cleared_alike(c, fresh(data), 0);
    }
    let _files: usize = data.files.len();
    go_on_from(data, at + 1)
}

// ---------------------------------------------------------------------------
// Texts
// ---------------------------------------------------------------------------

/// How many files were new, changed, unchanged and deleted.
pub open spec fn counts_text(stats: CrawlStats) -> Seq<char> {
    text::decimal(stats.new_files as nat) + " new, "@ + text::decimal(stats.changed_files as nat)
        + " changed, "@ + text::decimal(stats.unchanged_files as nat) + " unchanged, "@
        + text::decimal(stats.deleted_files as nat) + " deleted"@
}

/// How many files were new, changed, unchanged and deleted.
fn counts_said(stats: &CrawlStats) -> (r: String)
    ensures
        r@ == counts_text(*stats),
{
    let mut r = text::number(stats.new_files as u64);
    r.append(" new, ");
    r.append(text::number(stats.changed_files as u64).as_str());
    r.append(" changed, ");
    r.append(text::number(stats.unchanged_files as u64).as_str());
    r.append(" unchanged, ");
    r.append(text::number(stats.deleted_files as u64).as_str());
    r.append(" deleted");
    r
}

/// What is said when a directory was crawled once.
pub fn done_report(stats: &CrawlStats) -> (r: String)
    ensures
        r@ == "Done: "@ + counts_text(*stats) + " ("@ + text::decimal(
            stats.chunks_ingested as nat,
        ) + " chunks ingested)"@,
{
    let mut r = "Done: ".to_owned();
    r.append(counts_said(stats).as_str());
    r.append(" (");
    r.append(text::number(stats.chunks_ingested as u64).as_str());
    r.append(" chunks ingested)");
    r
}

/// What is said when a directory that will be watched was crawled.
pub fn initial_report(stats: &CrawlStats) -> (r: String)
    ensures
        r@ == "  "@ + counts_text(*stats) + " ("@ + text::decimal(stats.chunks_ingested as nat)
            + " chunks)"@,
{
    let mut r = "  ".to_owned();
    r.append(counts_said(stats).as_str());
    r.append(" (");
    r.append(text::number(stats.chunks_ingested as u64).as_str());
    r.append(" chunks)");
    r
}

// ---------------------------------------------------------------------------
// Laws
// ---------------------------------------------------------------------------

/// Where a crawl leads when it is resumed with some events, as long as each can come of
/// what it was about to do.
pub open spec fn crawl_through(step: CrawlStepView, events: Seq<EventView>) -> CrawlStepView
    decreases events.len(),
{
    if events.len() == 0 {
        step
    } else {
        match step {
            CrawlStepView::Go(c) => if expected(c, events.first()) {
                crawl_through(crawl_resumed(c, events.first()), events.drop_first())
            } else {
                step
            },
            _ => step,
        }
    }
}

/// Whether a step is one of the crawl of some files against some listed paths, and its
/// counts, once it is done, add up.
pub open spec fn crawls(
    step: CrawlStepView,
    files: Seq<(Seq<char>, Seq<char>)>,
    existing: Map<Seq<char>, FileSyncInfo>,
    listed: Seq<Seq<char>>,
) -> bool {
    match step {
        CrawlStepView::Go(c) => crawl_wf(c) && c.files == files && c.existing == existing
            && c.listed == listed,
        CrawlStepView::Done(stats) => decided(stats) <= files.len() && stats.deleted_files
            == stale(files, listed),
        CrawlStepView::Failed(_) => true,
    }
}

/// What clearing leads to belongs to the crawl.
proof fn lemma_cleared_from(c: CrawlView, i: int)
    requires
        0 <= i <= c.listed.len(),
        forall|k: int| 0 <= k < c.listed.len() ==> c.existing.contains_key(#[trigger] c.listed[k]),
        decided(c.stats) <= c.files.len(),
        c.stats.deleted_files == stale(c.files, c.listed.take(i)),
    ensures
        crawls(cleared_from(c, i), c.files, c.existing, c.listed),
        cleared_from(c, i) matches CrawlStepView::Go(n) ==> n.phase == Phase::Clearing && n.at >= i,
    decreases c.listed.len() - i,
{
    if i < c.listed.len() {
        lemma_stale_step(c.files, c.listed, i);
        if relatives(c.files).contains(c.listed[i]) {
            lemma_cleared_from(c, i + 1);
        }
    } else {
        assert(c.listed.take(i) == c.listed);
    }
}

/// What reading on leads to belongs to the crawl.
proof fn lemma_read_from(c: CrawlView, i: int)
    requires
        0 <= i <= c.files.len(),
        forall|k: int| 0 <= k < c.listed.len() ==> c.existing.contains_key(#[trigger] c.listed[k]),
        decided(c.stats) <= i,
        c.stats.deleted_files == 0,
    ensures
        crawls(read_from(c, i), c.files, c.existing, c.listed),
        read_from(c, i) matches CrawlStepView::Go(n) ==> (n.phase == Phase::Reading && n.at == i)
            || n.phase == Phase::Clearing,
{
    if i == c.files.len() {
        assert(c.listed.take(0) == Seq::<Seq<char>>::empty());
        lemma_cleared_from(c, 0);
    }
}

/// What an event leads to belongs to the crawl.
proof fn lemma_crawl_resumed(c: CrawlView, event: EventView)
    requires
        crawl_wf(c),
        expected(c, event),
        c.files.len() <= usize::MAX,
        c.listed.len() <= usize::MAX,
    ensures
        crawls(crawl_resumed(c, event), c.files, c.existing, c.listed),
        crawl_resumed(c, event) matches CrawlStepView::Go(n) ==> actions_left(n) < actions_left(c),
        crawl_resumed(c, event) is Go ==> actions_left(c) > 0,
{
    if c.phase == Phase::Clearing {
        lemma_stale_step(c.files, c.listed, c.at);
        let d = CrawlView {
            stats: CrawlStats {
                deleted_files: (c.stats.deleted_files + 1) as usize,
                ..c.stats
            },
            ..c
        };
        lemma_cleared_from(d, c.at + 1);
    } else {
        match event {
            EventView::Content(Some(_)) => {
                let d = CrawlView {
                    stats: CrawlStats {
                        unchanged_files: (c.stats.unchanged_files + 1) as usize,
                        ..c.stats
                    },
                    ..c
                };
                lemma_read_from(d, c.at + 1);
            },
            EventView::Ingested(Ok(n)) => {
                let d = CrawlView {
                    stats: CrawlStats {
                        chunks_ingested: (c.stats.chunks_ingested + n) as usize,
                        ..c.stats
                    },
                    ..c
                };
                lemma_read_from(d, c.at + 1);
            },
            _ => {
                lemma_read_from(c, c.at + 1);
            },
        }
    }
}

/// A bound on the actions that a crawl still takes: four for a file, one for a listed
/// path.
pub open spec fn actions_left(c: CrawlView) -> int {
    match c.phase {
        Phase::Reading => 4 * (c.files.len() - c.at) + c.listed.len(),
        Phase::Replacing => 4 * (c.files.len() - c.at) - 1 + c.listed.len(),
        Phase::Chunking => 4 * (c.files.len() - c.at) - 2 + c.listed.len(),
        Phase::Ingesting => 4 * (c.files.len() - c.at) - 3 + c.listed.len(),
        Phase::Clearing => c.listed.len() - c.at,
    }
}

/// A crawl comes nearer to its end with every action, whatever comes of it.
pub proof fn law_crawl_ends(c: CrawlView, event: EventView)
    requires
        crawl_wf(c),
        expected(c, event),
        c.files.len() <= usize::MAX,
        c.listed.len() <= usize::MAX,
    ensures
        crawl_resumed(c, event) matches CrawlStepView::Go(n) ==> 0 < actions_left(n) < actions_left(
            c,
        ),
{
    lemma_crawl_resumed(c, event);
}

/// What a crawl did, one thing after the other.
pub struct CrawlLog {
    /// The files that were read, each with what it holds; none where it could not be read.
    pub read: Seq<(Seq<char>, Option<Seq<char>>)>,
    /// The files whose old version was taken out of the index.
    pub replaced: Seq<Seq<char>>,
    /// How many chunks the index took.
    pub ingested: nat,
    /// The listed paths that were taken out of the index.
    pub cleared: Seq<Seq<char>>,
}

/// Nothing.
pub open spec fn nothing_done() -> CrawlLog {
    CrawlLog { read: Seq::empty(), replaced: Seq::empty(), ingested: 0, cleared: Seq::empty() }
}

/// What a crawl did, when what it was about to do led to an event.
pub open spec fn done_after(log: CrawlLog, c: CrawlView, event: EventView) -> CrawlLog {
    match event {
        EventView::Content(content) => CrawlLog {
            read: log.read.push((c.files[c.at].0, content)),
            ..log
        },
        EventView::Deleted(Ok(())) => if c.phase == Phase::Clearing {
            CrawlLog { cleared: log.cleared.push(c.listed[c.at]), ..log }
        } else {
            CrawlLog { replaced: log.replaced.push(c.files[c.at].1), ..log }
        },
        EventView::Ingested(Ok(n)) => CrawlLog { ingested: log.ingested + n as nat, ..log },
        _ => log,
    }
}

/// What a crawl did, when it was resumed with some events. `log` is what it did before.
pub open spec fn crawl_log(step: CrawlStepView, events: Seq<EventView>, log: CrawlLog) -> CrawlLog
    decreases events.len(),
{
    if events.len() == 0 {
        log
    } else {
        match step {
            CrawlStepView::Go(c) => if expected(c, events.first()) {
                crawl_log(
                    crawl_resumed(c, events.first()),
                    events.drop_first(),
                    done_after(log, c, events.first()),
                )
            } else {
                log
            },
            _ => log,
        }
    }
}

/// What a file is to a crawl.
pub enum Verdict {
    /// It cannot be read.
    Unreadable,
    /// The index does not know it.
    New,
    /// The index knows another version of it, or not all of it.
    Changed,
    /// The index is up to date with it.
    Unchanged,
}

/// What a file is, by what the index knows and by what it holds.
pub open spec fn verdict(
    existing: Map<Seq<char>, FileSyncInfo>,
    relative: Seq<char>,
    content: Option<Seq<char>>,
) -> Verdict {
    match content {
        None => Verdict::Unreadable,
        Some(text) => if !existing.contains_key(relative) {
            Verdict::New
        } else if up_to_date(existing[relative], hash_of(text)) {
            Verdict::Unchanged
        } else {
            Verdict::Changed
        },
    }
}

/// What the first files are, as far as they were read.
pub open spec fn verdicts(
    files: Seq<(Seq<char>, Seq<char>)>,
    existing: Map<Seq<char>, FileSyncInfo>,
    read: Seq<(Seq<char>, Option<Seq<char>>)>,
) -> Seq<Verdict> {
    Seq::new(read.len(), |i: int| verdict(existing, files[i].1, read[i].1))
}

/// The paths of the files that are `v`, seen from the directory, in their order.
pub open spec fn paths_that_are(
    files: Seq<(Seq<char>, Seq<char>)>,
    all: Seq<Verdict>,
    v: Verdict,
) -> Seq<Seq<char>>
    decreases all.len(),
{
    if all.len() == 0 {
        Seq::empty()
    } else {
        let before = paths_that_are(files, all.drop_last(), v);
        if all.last() == v {
            before.push(files[all.len() - 1].1)
        } else {
            before
        }
    }
}

/// How many files could be read.
pub open spec fn readable(read: Seq<(Seq<char>, Option<Seq<char>>)>) -> nat
    decreases read.len(),
{
    if read.len() == 0 {
        0
    } else {
        readable(read.drop_last()) + if read.last().1 is Some {
            1nat
        } else {
            0nat
        }
    }
}

/// Whether the counts on files are those of files that are this or that.
pub open spec fn counts_files(
    stats: CrawlStats,
    files: Seq<(Seq<char>, Seq<char>)>,
    all: Seq<Verdict>,
) -> bool {
    &&& stats.new_files == paths_that_are(files, all, Verdict::New).len()
    &&& stats.changed_files == paths_that_are(files, all, Verdict::Changed).len()
    &&& stats.unchanged_files == paths_that_are(files, all, Verdict::Unchanged).len()
}

/// Whether what a crawl did and what it counted is what there was to do: every file was
/// read once, in order; the files were counted as what they are; the old versions of
/// exactly those that had changed were replaced; the chunks were counted that the index
/// took; and exactly those listed paths were cleared that are no longer in the directory.
pub open spec fn adds_up(
    stats: CrawlStats,
    log: CrawlLog,
    files: Seq<(Seq<char>, Seq<char>)>,
    existing: Map<Seq<char>, FileSyncInfo>,
    listed: Seq<Seq<char>>,
) -> bool {
    let all = verdicts(files, existing, log.read);
    &&& log.read.len() == files.len()
    &&& forall|i: int| 0 <= i < files.len() ==> (#[trigger] log.read[i]).0 == files[i].0
    &&& counts_files(stats, files, all)
    &&& decided(stats) == readable(log.read)
    &&& log.replaced == paths_that_are(files, all, Verdict::Changed)
    &&& stats.chunks_ingested == log.ingested
    &&& log.cleared == stale_paths(files, listed)
    &&& stats.deleted_files == log.cleared.len()
}

/// Whatever comes of its actions, a crawl that is done has read every file once, counted
/// each that could be read as new, changed or unchanged, replaced those that had changed,
/// and taken exactly those listed paths out of the index that are no longer in the
/// directory.
pub proof fn law_counts_add_up(
    catalog: Seq<char>,
    monorepo: bool,
    files: Seq<(Seq<char>, Seq<char>)>,
    listing: Seq<(String, FileSyncInfo)>,
    events: Seq<EventView>,
)
    requires
        files.len() <= usize::MAX,
        listing.len() <= usize::MAX,
    ensures
        ({
            let start = crawl_started(catalog, monorepo, files, listing);
            let step = crawl_through(start, events);
            let log = crawl_log(start, events, nothing_done());
            &&& crawls(step, files, known(listing), listed_paths(listing))
            &&& step matches CrawlStepView::Done(stats) ==> adds_up(
                stats,
                log,
                files,
                known(listing),
                listed_paths(listing),
            )
        }),
{
    let c = CrawlView {
        catalog,
        monorepo,
        files,
        existing: known(listing),
        listed: listed_paths(listing),
        phase: Phase::Reading,
        at: 0,
        pending: Seq::empty(),
        stats: no_stats(),
    };
    lemma_listed_is_known(listing);
    lemma_read_from(c, 0);
    lemma_tells_reading(c, nothing_done(), 0);
    lemma_crawl_through(
        read_from(c, 0),
        files,
        known(listing),
        listed_paths(listing),
        events,
        nothing_done(),
    );
}

/// Whether `log` tells what a crawl did up to a step.
spec fn tells(step: CrawlStepView, log: CrawlLog, of: CrawlView) -> bool {
    match step {
        CrawlStepView::Go(c) => {
            let all = verdicts(c.files, c.existing, log.read);
            let settled = if c.phase == Phase::Replacing {
                all.drop_last()
            } else {
                all
            };
            &&& forall|i: int|
                0 <= i < log.read.len() ==> (#[trigger] log.read[i]).0 == c.files[i].0
            &&& counts_files(c.stats, c.files, settled)
            &&& log.replaced == paths_that_are(c.files, settled, Verdict::Changed)
            &&& c.stats.chunks_ingested == log.ingested
            &&& match c.phase {
                Phase::Reading => log.read.len() == c.at && log.cleared.len() == 0,
                Phase::Replacing => log.read.len() == c.at + 1 && all.last() == Verdict::Changed
                    && log.cleared.len() == 0,
                Phase::Clearing => log.read.len() == c.files.len() && log.cleared == stale_paths(
                    c.files,
                    c.listed.take(c.at),
                ),
                _ => log.read.len() == c.at + 1 && log.cleared.len() == 0,
            }
        },
        CrawlStepView::Done(stats) => adds_up(stats, log, of.files, of.existing, of.listed),
        CrawlStepView::Failed(_) => true,
    }
}

/// One file more is one more of what it is.
proof fn lemma_one_verdict_more(
    files: Seq<(Seq<char>, Seq<char>)>,
    existing: Map<Seq<char>, FileSyncInfo>,
    read: Seq<(Seq<char>, Option<Seq<char>>)>,
    entry: (Seq<char>, Option<Seq<char>>),
)
    ensures
        verdicts(files, existing, read.push(entry)).drop_last() == verdicts(files, existing, read),
        verdicts(files, existing, read.push(entry)).last() == verdict(
            existing,
            files[read.len() as int].1,
            entry.1,
        ),
{
    assert(verdicts(files, existing, read.push(entry)).drop_last() == verdicts(
        files,
        existing,
        read,
    ));
}

/// The files that are new, changed or unchanged are those that could be read.
proof fn lemma_readable(
    files: Seq<(Seq<char>, Seq<char>)>,
    existing: Map<Seq<char>, FileSyncInfo>,
    read: Seq<(Seq<char>, Option<Seq<char>>)>,
)
    ensures
        ({
            let all = verdicts(files, existing, read);
            readable(read) == paths_that_are(files, all, Verdict::New).len() + paths_that_are(
                files,
                all,
                Verdict::Changed,
            ).len() + paths_that_are(files, all, Verdict::Unchanged).len()
        }),
    decreases read.len(),
{
    if read.len() > 0 {
        let rest = read.drop_last();
        lemma_readable(files, existing, rest);
        assert(rest.push(read.last()) == read);
        lemma_one_verdict_more(files, existing, rest, read.last());
    }
}

/// What clearing leads to is told.
proof fn lemma_tells_clearing(c: CrawlView, log: CrawlLog, i: int)
    requires
        0 <= i <= c.listed.len(),
        log.read.len() == c.files.len(),
        forall|k: int| 0 <= k < log.read.len() ==> (#[trigger] log.read[k]).0 == c.files[k].0,
        counts_files(c.stats, c.files, verdicts(c.files, c.existing, log.read)),
        log.replaced == paths_that_are(
            c.files,
            verdicts(c.files, c.existing, log.read),
            Verdict::Changed,
        ),
        c.stats.chunks_ingested == log.ingested,
        c.stats.deleted_files == stale(c.files, c.listed.take(i)),
        log.cleared == stale_paths(c.files, c.listed.take(i)),
    ensures
        tells(cleared_from(c, i), log, c),
    decreases c.listed.len() - i,
{
    if i < c.listed.len() {
        lemma_stale_step(c.files, c.listed, i);
        if relatives(c.files).contains(c.listed[i]) {
            lemma_tells_clearing(c, log, i + 1);
        }
    } else {
        assert(c.listed.take(i) == c.listed);
        lemma_readable(c.files, c.existing, log.read);
    }
}

/// What reading on leads to is told.
proof fn lemma_tells_reading(c: CrawlView, log: CrawlLog, i: int)
    requires
        0 <= i <= c.files.len(),
        log.read.len() == i,
        forall|k: int| 0 <= k < log.read.len() ==> (#[trigger] log.read[k]).0 == c.files[k].0,
        counts_files(c.stats, c.files, verdicts(c.files, c.existing, log.read)),
        log.replaced == paths_that_are(
            c.files,
            verdicts(c.files, c.existing, log.read),
            Verdict::Changed,
        ),
        c.stats.chunks_ingested == log.ingested,
        c.stats.deleted_files == 0,
        log.cleared.len() == 0,
    ensures
        tells(read_from(c, i), log, c),
{
    if i == c.files.len() {
        assert(c.listed.take(0) == Seq::<Seq<char>>::empty());
        assert(log.cleared == Seq::<Seq<char>>::empty());
        lemma_tells_clearing(c, log, 0);
    }
}

/// What an event leads to is told.
proof fn lemma_tells(c: CrawlView, event: EventView, log: CrawlLog)
    requires
        crawl_wf(c),
        expected(c, event),
        c.files.len() <= usize::MAX,
        c.listed.len() <= usize::MAX,
        tells(CrawlStepView::Go(c), log, c),
    ensures
        tells(crawl_resumed(c, event), done_after(log, c, event), c),
{
    let after = done_after(log, c, event);
    match event {
        EventView::Content(content) => {
            lemma_one_verdict_more(c.files, c.existing, log.read, (c.files[c.at].0, content));
            let d = match content {
                Some(_) => CrawlView {
                    stats: CrawlStats {
                        unchanged_files: (c.stats.unchanged_files + 1) as usize,
                        ..c.stats
                    },
                    ..c
                },
                None => c,
            };
            let what = verdict(c.existing, c.files[c.at].1, content);
            if what is Unreadable || what is Unchanged {
                lemma_tells_reading(d, after, c.at + 1);
            }
        },
        EventView::Deleted(Ok(())) => {
            if c.phase == Phase::Clearing {
                lemma_stale_step(c.files, c.listed, c.at);
                let d = CrawlView {
                    stats: CrawlStats {
                        deleted_files: (c.stats.deleted_files + 1) as usize,
                        ..c.stats
                    },
                    ..c
                };
                lemma_tells_clearing(d, after, c.at + 1);
            } else {
                let all = verdicts(c.files, c.existing, log.read);
                assert(all.len() == c.at + 1);
            }
        },
        EventView::Deleted(Err(_)) => {},
        EventView::Chunked(Ok(_)) => {},
        EventView::Chunked(Err(_)) => {
            lemma_tells_reading(c, after, c.at + 1);
        },
        EventView::Ingested(Err(_)) => {
            lemma_tells_reading(c, after, c.at + 1);
        },
        EventView::Ingested(Ok(n)) => {
            let d = CrawlView {
                stats: CrawlStats {
                    chunks_ingested: (c.stats.chunks_ingested + n) as usize,
                    ..c.stats
                },
                ..c
            };
            lemma_tells_reading(d, after, c.at + 1);
        },
    }
}

proof fn lemma_crawl_through(
    step: CrawlStepView,
    files: Seq<(Seq<char>, Seq<char>)>,
    existing: Map<Seq<char>, FileSyncInfo>,
    listed: Seq<Seq<char>>,
    events: Seq<EventView>,
    log: CrawlLog,
)
    requires
        crawls(step, files, existing, listed),
        files.len() <= usize::MAX,
        listed.len() <= usize::MAX,
        step is Go ==> tells(step, log, step->Go_0),
        step matches CrawlStepView::Done(stats) ==> adds_up(stats, log, files, existing, listed),
    ensures
        crawls(crawl_through(step, events), files, existing, listed),
        crawl_through(step, events) matches CrawlStepView::Done(stats) ==> adds_up(
            stats,
            crawl_log(step, events, log),
            files,
            existing,
            listed,
        ),
    decreases events.len(),
{
    if events.len() > 0 {
        if let CrawlStepView::Go(c) = step {
            if expected(c, events.first()) {
                lemma_crawl_resumed(c, events.first());
                lemma_tells(c, events.first(), log);
                lemma_crawl_through(
                    crawl_resumed(c, events.first()),
                    files,
                    existing,
                    listed,
                    events.drop_first(),
                    done_after(log, c, events.first()),
                );
            }
        }
    }
}

/// A crawl takes nothing out of the index but what the index knows: the old version of
/// a file that is read again, or a path that is no longer in the directory.
pub proof fn law_only_known_files_are_deleted(c: CrawlView, relative_path: String)
    requires
        crawl_wf(c),
        action_fits(c, CrawlAction::Delete { relative_path }),
    ensures
        c.existing.contains_key(relative_path@),
        c.phase == Phase::Clearing <==> !relatives(c.files).contains(relative_path@),
{
    if c.phase == Phase::Replacing {
        assert(relatives(c.files)[c.at] == relative_path@);
    }
}

/// What comes of the actions on a file that the index is not up to date with, when all
/// of them go well: it is read, taken out of the index where the index knows it, and
/// cut.
pub open spec fn outdated_events(
    is_known: bool,
    content: Seq<char>,
    chunks: Seq<ChunkView>,
) -> Seq<EventView> {
    let read = Seq::empty().push(EventView::Content(Some(content)));
    let replaced = if is_known {
        read.push(EventView::Deleted(Ok(())))
    } else {
        read
    };
    replaced.push(EventView::Chunked(Ok(chunks)))
}

/// A file that the index is not up to date with is counted once, as new or as changed,
/// and all its chunks are handed to the index, without their marks. Then the next file
/// has its turn.
pub proof fn law_outdated_file_is_ingested(
    c: CrawlView,
    content: Seq<char>,
    chunks: Seq<ChunkView>,
    ingested: usize,
)
    requires
        crawl_wf(c),
        c.phase == Phase::Reading,
        c.files.len() <= usize::MAX,
        c.existing.contains_key(c.files[c.at].1) ==> !up_to_date(
            c.existing[c.files[c.at].1],
            hash_of(content),
        ),
        c.stats.chunks_ingested + ingested <= usize::MAX,
    ensures
        ({
            let is_known = c.existing.contains_key(c.files[c.at].1);
            let after = crawl_through(
                CrawlStepView::Go(c),
                outdated_events(is_known, content, chunks),
            );
            &&& after matches CrawlStepView::Go(n) && {
                &&& n.phase == Phase::Ingesting
                &&& n.pending == all_unmarked(chunks)
                &&& n.stats.changed_files == c.stats.changed_files + if is_known {
                    1int
                } else {
                    0int
                }
                &&& n.stats.new_files == c.stats.new_files + if is_known {
                    0int
                } else {
                    1int
                }
                &&& n.stats.unchanged_files == c.stats.unchanged_files
                &&& crawl_resumed(n, EventView::Ingested(Ok(ingested))) == read_from(
                    CrawlView {
                        stats: CrawlStats {
                            chunks_ingested: (c.stats.chunks_ingested + ingested) as usize,
                            ..n.stats
                        },
                        ..n
                    },
                    c.at + 1,
                )
            }
        }),
{
    let is_known = c.existing.contains_key(c.files[c.at].1);
    let events = outdated_events(is_known, content, chunks);
    let first = crawl_resumed(c, events.first());
    let rest = events.drop_first();
    assert(events.first() == EventView::Content(Some(content)));
    assert(crawl_through(CrawlStepView::Go(c), events) == crawl_through(first, rest));
    if is_known {
        let last = rest.drop_first();
        assert(rest.first() == EventView::Deleted(Ok(())));
        assert(last.first() == EventView::Chunked(Ok(chunks)));
        assert(last.drop_first().len() == 0);
        let second = crawl_resumed(first->Go_0, rest.first());
        assert(crawl_through(first, rest) == crawl_through(second, last));
        let third = crawl_resumed(second->Go_0, last.first());
        assert(crawl_through(second, last) == crawl_through(third, last.drop_first()));
    } else {
        assert(rest.first() == EventView::Chunked(Ok(chunks)));
        assert(rest.drop_first().len() == 0);
        let second = crawl_resumed(first->Go_0, rest.first());
        assert(crawl_through(first, rest) == crawl_through(second, rest.drop_first()));
    }
}

/// The events of files that are read one after the other.
pub open spec fn all_read(contents: Seq<Seq<char>>) -> Seq<EventView> {
    Seq::new(contents.len(), |i: int| EventView::Content(Some(contents[i])))
}

/// The crawl of a directory that the index is up to date with reads every file, and
/// does nothing else: nothing is deleted, nothing is cut, nothing is ingested.
pub proof fn law_indexed_directory_is_left_alone(
    catalog: Seq<char>,
    monorepo: bool,
    files: Seq<(Seq<char>, Seq<char>)>,
    listing: Seq<(String, FileSyncInfo)>,
    contents: Seq<Seq<char>>,
)
    requires
        files.len() <= usize::MAX,
        contents.len() == files.len(),
        forall|i: int|
            0 <= i < files.len() ==> known(listing).contains_key((#[trigger] files[i]).1)
                && up_to_date(known(listing)[files[i].1], hash_of(contents[i])),
        forall|i: int|
            0 <= i < listing.len() ==> relatives(files).contains(
                #[trigger] listed_paths(listing)[i],
            ),
    ensures
        crawl_through(crawl_started(catalog, monorepo, files, listing), all_read(contents))
            == CrawlStepView::Done(
            CrawlStats { unchanged_files: files.len() as usize, ..no_stats() },
        ),
{
    let c = CrawlView {
        catalog,
        monorepo,
        files,
        existing: known(listing),
        listed: listed_paths(listing),
        phase: Phase::Reading,
        at: 0,
        pending: Seq::empty(),
        stats: no_stats(),
    };
    assert(contents.skip(0) == contents);
    lemma_left_alone(c, contents, 0);
}

proof fn lemma_left_alone(c: CrawlView, contents: Seq<Seq<char>>, i: int)
    requires
        0 <= i <= c.files.len(),
        c.files.len() <= usize::MAX,
        contents.len() == c.files.len(),
        forall|k: int|
            0 <= k < c.files.len() ==> c.existing.contains_key((#[trigger] c.files[k]).1)
                && up_to_date(c.existing[c.files[k].1], hash_of(contents[k])),
        forall|k: int|
            0 <= k < c.listed.len() ==> relatives(c.files).contains(#[trigger] c.listed[k]),
        c.stats == (CrawlStats { unchanged_files: i as usize, ..no_stats() }),
    ensures
        crawl_through(read_from(c, i), all_read(contents.skip(i))) == CrawlStepView::Done(
            CrawlStats { unchanged_files: c.files.len() as usize, ..no_stats() },
        ),
    decreases c.files.len() - i,
{
    let events = all_read(contents.skip(i));
    if i == c.files.len() {
        lemma_nothing_to_clear(c, 0);
    } else {
        let here = CrawlView { phase: Phase::Reading, at: i, pending: Seq::empty(), ..c };
        let next = CrawlView {
            stats: CrawlStats { unchanged_files: (i + 1) as usize, ..no_stats() },
            ..here
        };
        assert(events.first() == EventView::Content(Some(contents[i])));
        assert(events.drop_first() == all_read(contents.skip(i + 1)));
        assert(c.existing.contains_key(c.files[i].1));
        assert(crawl_resumed(here, events.first()) == read_from(next, i + 1));
        lemma_left_alone(next, contents, i + 1);
    }
}

proof fn lemma_nothing_to_clear(c: CrawlView, i: int)
    requires
        0 <= i <= c.listed.len(),
        forall|k: int|
            0 <= k < c.listed.len() ==> relatives(c.files).contains(#[trigger] c.listed[k]),
    ensures
        cleared_from(c, i) == CrawlStepView::Done(c.stats),
    decreases c.listed.len() - i,
{
    if i < c.listed.len() {
        lemma_nothing_to_clear(c, i + 1);
    }
}

/// The hash of a content is `sha256:` and then, two digits for a byte, the SHA-256 digest
/// of all the bytes that the content has in UTF-8, in lower-case hexadecimal.
pub proof fn law_hash_is_of_the_whole_content(content: Seq<char>)
    ensures
        ({
            let digest = outside::sha256(vstd::utf8::encode_utf8(content));
            let hash = hash_of(content);
            &&& hash == "sha256:"@ + hex(digest)
            &&& is_hex_of(hex(digest), digest)
        }),
{
    lemma_hex(outside::sha256(vstd::utf8::encode_utf8(content)));
}

/// Whether `s` writes each of some bytes as two lower-case hexadecimal digits.
pub open spec fn is_hex_of(s: Seq<char>, bytes: Seq<u8>) -> bool {
    &&& s.len() == 2 * bytes.len()
    &&& forall|i: int|
        #![trigger bytes[i]]
        0 <= i < bytes.len() ==> s[2 * i] == "0123456789abcdef"@[bytes[i] as int / 16] && s[2 * i
            + 1] == "0123456789abcdef"@[bytes[i] as int % 16]
}

proof fn lemma_hex(bytes: Seq<u8>)
    ensures
        is_hex_of(hex(bytes), bytes),
    decreases bytes.len(),
{
    reveal_strlit("0123456789abcdef");
    if bytes.len() > 0 {
        let rest = bytes.drop_last();
        lemma_hex(rest);
        assert forall|i: int|
            #![trigger bytes[i]]
            0 <= i < bytes.len() implies hex(bytes)[2 * i]
            == "0123456789abcdef"@[bytes[i] as int / 16] && hex(bytes)[2 * i + 1]
            == "0123456789abcdef"@[bytes[i] as int % 16] by {
            if i < rest.len() {
                assert(rest[i] == bytes[i]);
                assert(hex(bytes)[2 * i] == hex(rest)[2 * i]);
                assert(hex(bytes)[2 * i + 1] == hex(rest)[2 * i + 1]);
            }
        }
    }
}

/// Bytes are written as two lower-case hexadecimal digits each.
pub proof fn law_bytes_in_hexadecimal(bytes: Seq<u8>)
    ensures
        is_hex_of(hex(bytes), bytes),
{
    lemma_hex(bytes);
}

/// Whether the index holds just this content of a file: it lists the file with the hash of
/// the whole content, and as complete.
pub open spec fn holds_content(
    existing: Map<Seq<char>, FileSyncInfo>,
    relative: Seq<char>,
    content: Seq<char>,
) -> bool {
    &&& existing.contains_key(relative)
    &&& existing[relative].content_hash@ == "sha256:"@ + hex(
        outside::sha256(vstd::utf8::encode_utf8(content)),
    )
    &&& existing[relative].file_complete
}

/// A file is unchanged just where the index holds its content, new just where the index
/// does not list it, and changed where neither holds; where it cannot be read it is none
/// of these.
pub proof fn law_verdict_on_a_file(
    existing: Map<Seq<char>, FileSyncInfo>,
    relative: Seq<char>,
    content: Seq<char>,
)
    ensures
        verdict(existing, relative, Some(content)) is Unchanged <==> holds_content(
            existing,
            relative,
            content,
        ),
        verdict(existing, relative, Some(content)) is New <==> !existing.contains_key(relative),
        verdict(existing, relative, Some(content)) is Changed <==> existing.contains_key(relative)
            && !holds_content(existing, relative, content),
        verdict(existing, relative, None) is Unreadable,
{
}

/// Whether a step leaves the file that a crawl is at behind, with these counts: the next
/// file is read, or where there is none the index is cleared.
pub open spec fn leaves_file(step: CrawlStepView, c: CrawlView, stats: CrawlStats) -> bool {
    match step {
        CrawlStepView::Go(n) => {
            &&& n.stats == stats
            &&& if c.at + 1 < c.files.len() {
                n.phase == Phase::Reading && n.at == c.at + 1
            } else {
                n.phase == Phase::Clearing
            }
        },
        CrawlStepView::Done(s) => s == stats && c.at + 1 >= c.files.len(),
        CrawlStepView::Failed(_) => false,
    }
}

/// What is read of a file decides what becomes of it. Where the index holds the content,
/// the file is counted as unchanged and left behind, with nothing else done. Where the
/// index lists it otherwise, it is replaced. Where the index does not list it, it is
/// counted as new and cut. Where it could not be read, it is left behind uncounted.
pub proof fn law_content_decides(c: CrawlView, content: Seq<char>)
    requires
        crawl_wf(c),
        c.phase == Phase::Reading,
        c.files.len() <= usize::MAX,
    ensures
        ({
            let relative = c.files[c.at].1;
            let step = crawl_resumed(c, EventView::Content(Some(content)));
            &&& holds_content(c.existing, relative, content) ==> leaves_file(
                step,
                c,
                CrawlStats {
                    unchanged_files: (c.stats.unchanged_files + 1) as usize,
                    ..c.stats
                },
            )
            &&& c.existing.contains_key(relative) && !holds_content(
                c.existing,
                relative,
                content,
            ) ==> (step matches CrawlStepView::Go(n) && n.phase == Phase::Replacing && n.at == c.at
                && n.stats == c.stats)
            &&& !c.existing.contains_key(relative) ==> (step matches CrawlStepView::Go(n) && n.phase
                == Phase::Chunking && n.at == c.at && n.stats == (CrawlStats {
                new_files: (c.stats.new_files + 1) as usize,
                ..c.stats
            }))
        }),
        leaves_file(crawl_resumed(c, EventView::Content(None)), c, c.stats),
{
    let d = CrawlView {
        stats: CrawlStats { unchanged_files: (c.stats.unchanged_files + 1) as usize, ..c.stats },
        ..c
    };
    lemma_leaves_file(d);
    lemma_leaves_file(c);
}

proof fn lemma_leaves_file(c: CrawlView)
    requires
        0 <= c.at < c.files.len(),
    ensures
        leaves_file(read_from(c, c.at + 1), c, c.stats),
{
    if c.at + 1 >= c.files.len() {
        lemma_clearing_keeps(c, 0);
    }
}

/// Clearing keeps the task and the counts of a crawl, and goes forward.
proof fn lemma_clearing_keeps(c: CrawlView, i: int)
    requires
        0 <= i,
    ensures
        match cleared_from(c, i) {
            CrawlStepView::Go(n) => same_task(n, c) && n.stats == c.stats && n.phase
                == Phase::Clearing && i <= n.at < c.listed.len() && n.pending.len() == 0,
            CrawlStepView::Done(s) => s == c.stats,
            CrawlStepView::Failed(_) => false,
        },
    decreases c.listed.len() - i,
{
    if i < c.listed.len() && relatives(c.files).contains(c.listed[i]) {
        lemma_clearing_keeps(c, i + 1);
    }
}

/// What becomes of a file that is dealt with. Where its old version was taken out of the
/// index, it is counted as changed and cut; where it was cut, all its chunks are handed
/// over; where they were taken, as many are counted. Where it cannot be cut or handed
/// over, it is left behind with the counts as they were. Only where something cannot be
/// taken out of the index is the crawl given up, for the reason that came.
pub proof fn law_file_is_dealt_with(c: CrawlView, event: EventView)
    requires
        crawl_wf(c),
        expected(c, event),
        c.files.len() <= usize::MAX,
    ensures
        event matches EventView::Deleted(Err(e)) ==> crawl_resumed(c, event)
            == CrawlStepView::Failed(e),
        crawl_resumed(c, event) is Failed ==> event is Deleted,
        event == EventView::Deleted(Ok(())) && c.phase == Phase::Replacing ==> (crawl_resumed(
            c,
            event,
        ) matches CrawlStepView::Go(n) && n.phase == Phase::Chunking && n.at == c.at && n.stats == (
        CrawlStats { changed_files: (c.stats.changed_files + 1) as usize, ..c.stats })),
        event matches EventView::Chunked(Ok(chunks)) ==> (crawl_resumed(c, event) matches
            CrawlStepView::Go(n) && n.phase == Phase::Ingesting && n.at == c.at && n.stats
            == c.stats && n.pending.len() == chunks.len() && (forall|i: int|
            0 <= i < chunks.len() ==> #[trigger] n.pending[i] == unmarked(chunks[i]))),
        event matches EventView::Chunked(Err(_)) ==> leaves_file(
            crawl_resumed(c, event),
            c,
            c.stats,
        ),
        event matches EventView::Ingested(Err(_)) ==> leaves_file(
            crawl_resumed(c, event),
            c,
            c.stats,
        ),
        event matches EventView::Ingested(Ok(n)) ==> leaves_file(
            crawl_resumed(c, event),
            c,
            CrawlStats { chunks_ingested: (c.stats.chunks_ingested + n) as usize, ..c.stats },
        ),
{
    lemma_leaves_file_if_any(c);
    if let EventView::Ingested(Ok(n)) = event {
        let d = CrawlView {
            stats: CrawlStats {
                chunks_ingested: (c.stats.chunks_ingested + n) as usize,
                ..c.stats
            },
            ..c
        };
        lemma_leaves_file(d);
    }
    if c.phase == Phase::Clearing {
        let d = CrawlView {
            stats: CrawlStats { deleted_files: (c.stats.deleted_files + 1) as usize, ..c.stats },
            ..c
        };
        lemma_clearing_keeps(d, c.at + 1);
    } else {
        let d = CrawlView {
            stats: CrawlStats {
                unchanged_files: (c.stats.unchanged_files + 1) as usize,
                ..c.stats
            },
            ..c
        };
        lemma_leaves_file(d);
    }
}

proof fn lemma_leaves_file_if_any(c: CrawlView)
    ensures
        0 <= c.at < c.files.len() ==> leaves_file(read_from(c, c.at + 1), c, c.stats),
{
    if 0 <= c.at < c.files.len() {
        lemma_leaves_file(c);
    }
}

/// Where a path was cleared, it is counted, and the next path that is cleared stands
/// behind it.
pub proof fn law_clearing_goes_forward(c: CrawlView)
    requires
        crawl_wf(c),
        c.phase == Phase::Clearing,
    ensures
        ({
            let stats = CrawlStats {
                deleted_files: (c.stats.deleted_files + 1) as usize,
                ..c.stats
            };
            match crawl_resumed(c, EventView::Deleted(Ok(()))) {
                CrawlStepView::Go(n) => n.phase == Phase::Clearing && n.at > c.at && n.stats
                    == stats && !relatives(c.files).contains(c.listed[n.at]) && (forall|i: int|
                    c.at < i < n.at ==> relatives(c.files).contains(#[trigger] c.listed[i])),
                CrawlStepView::Done(s) => s == stats && (forall|i: int|
                    c.at < i < c.listed.len() ==> relatives(c.files).contains(
                        #[trigger] c.listed[i],
                    )),
                CrawlStepView::Failed(_) => false,
            }
        }),
{
    let d = CrawlView {
        stats: CrawlStats { deleted_files: (c.stats.deleted_files + 1) as usize, ..c.stats },
        ..c
    };
    lemma_clearing_keeps(d, c.at + 1);
    lemma_clearing_finds_the_next(d, c.at + 1);
}

proof fn lemma_clearing_finds_the_next(c: CrawlView, i: int)
    requires
        0 <= i,
    ensures
        match cleared_from(c, i) {
            CrawlStepView::Go(n) => !relatives(c.files).contains(c.listed[n.at]) && (forall|k: int|
                i <= k < n.at ==> relatives(c.files).contains(#[trigger] c.listed[k])),
            CrawlStepView::Done(_) => forall|k: int|
                i <= k < c.listed.len() ==> relatives(c.files).contains(#[trigger] c.listed[k]),
            CrawlStepView::Failed(_) => true,
        },
    decreases c.listed.len() - i,
{
    if i < c.listed.len() && relatives(c.files).contains(c.listed[i]) {
        lemma_clearing_finds_the_next(c, i + 1);
        assert(relatives(c.files).contains(c.listed[i]));
    }
}

/// Whether two crawls have the same task: the same catalog, of the same kind, with the
/// same files, against the same knowledge of the index.
pub open spec fn same_task(a: CrawlView, b: CrawlView) -> bool {
    &&& a.catalog == b.catalog && a.monorepo == b.monorepo
    &&& a.files == b.files && a.existing == b.existing && a.listed == b.listed
}

/// A crawl starts with nothing counted, and its task is what it is given. Nothing that
/// happens changes the task.
pub proof fn law_crawl_keeps_its_task(
    catalog: Seq<char>,
    monorepo: bool,
    files: Seq<(Seq<char>, Seq<char>)>,
    listing: Seq<(String, FileSyncInfo)>,
    c: CrawlView,
    event: EventView,
)
    requires
        crawl_wf(c),
        expected(c, event),
    ensures
        match crawl_started(catalog, monorepo, files, listing) {
            CrawlStepView::Go(n) => {
                &&& n.catalog == catalog && n.monorepo == monorepo && n.files == files
                &&& n.existing == known(listing) && n.listed.len() == listing.len()
                &&& forall|i: int|
                    0 <= i < listing.len() ==> #[trigger] n.listed[i] == listing[i].0@
                &&& n.stats == (CrawlStats {
                    new_files: 0,
                    changed_files: 0,
                    unchanged_files: 0,
                    deleted_files: 0,
                    chunks_ingested: 0,
                })
                &&& files.len() > 0 ==> n.phase == Phase::Reading && n.at == 0
            },
            CrawlStepView::Done(_) => files.len() == 0,
            CrawlStepView::Failed(_) => false,
        },
        crawl_resumed(c, event) matches CrawlStepView::Go(n) ==> same_task(n, c),
{
    let start = CrawlView {
        catalog,
        monorepo,
        files,
        existing: known(listing),
        listed: listed_paths(listing),
        phase: Phase::Reading,
        at: 0,
        pending: Seq::empty(),
        stats: no_stats(),
    };
    lemma_clearing_keeps(start, 0);
    let d = CrawlView {
        stats: CrawlStats { deleted_files: (c.stats.deleted_files + 1) as usize, ..c.stats },
        ..c
    };
    let e = CrawlView {
        stats: CrawlStats { unchanged_files: (c.stats.unchanged_files + 1) as usize, ..c.stats },
        ..c
    };
    lemma_clearing_keeps(d, c.at + 1);
    lemma_clearing_keeps(e, 0);
    lemma_clearing_keeps(c, 0);
    if let EventView::Ingested(Ok(n)) = event {
        let f = CrawlView {
            stats: CrawlStats {
                chunks_ingested: (c.stats.chunks_ingested + n) as usize,
                ..c.stats
            },
            ..c
        };
        lemma_clearing_keeps(f, 0);
    }
}

/// Of a chunk only the breadcrumb changes, and that only by its marks: where it has none
/// it stays, and the first one goes with what stands around it kept.
pub proof fn law_only_marks_are_removed(c: ChunkView, front: Seq<char>, rest: Seq<char>)
    ensures
        ({
            let u = unmarked(c);
            let mark = ":[fallback-split]"@;
            &&& u == ChunkView { breadcrumb: u.breadcrumb, ..c }
            &&& !text::occurs_in(mark, c.breadcrumb) ==> u.breadcrumb == c.breadcrumb
            &&& c.breadcrumb == front + mark + rest && !text::occurs_in(
                mark,
                front + mark.drop_last(),
            ) ==> u.breadcrumb == front + unmarked(
                ChunkView { breadcrumb: rest, ..c },
            ).breadcrumb
        }),
{
    reveal_strlit(":[fallback-split]");
    text::law_occurrences_are_taken_out(front, ":[fallback-split]"@, rest);
    text::law_occurrences_are_taken_out(front, ":[fallback-split]"@, c.breadcrumb);
}

/// Every file that was found and is wanted is indexed, once and in its order, with its
/// path as it is and as it is seen from the directory; no other is. A file is wanted where
/// it is not skipped and its lowercase path ends like a text file.
pub proof fn law_wanted_files_are_indexed(
    a: Seq<FoundFile>,
    b: Seq<FoundFile>,
    f: FoundFile,
    directory: Seq<char>,
)
    ensures
        wanted_files(a + b, directory) == wanted_files(a, directory) + wanted_files(b, directory),
        !f.skip && paths::has_text_extension(outside::lowercase(f.path@)) ==> wanted_files(
            seq![f],
            directory,
        ) == seq![(f.path@, paths::seen_from(f.path@, directory))],
        f.skip || !paths::has_text_extension(outside::lowercase(f.path@)) ==> wanted_files(
            seq![f],
            directory,
        ).len() == 0,
    decreases b.len(),
{
    let one = seq![f];
    assert(one.drop_last() == Seq::<FoundFile>::empty());
    assert(one.last() == f);
    assert(wanted_files(one.drop_last(), directory) == Seq::<(Seq<char>, Seq<char>)>::empty());
    if b.len() == 0 {
        assert(a + b == a);
        assert(wanted_files(a, directory) + wanted_files(b, directory) == wanted_files(a, directory));
    } else {
        let rest = b.drop_last();
        law_wanted_files_are_indexed(a, rest, f, directory);
        assert((a + b).drop_last() == a + rest);
        assert((a + b).last() == b.last());
        assert(wanted_files(a + b, directory) == wanted_files(a, directory) + wanted_files(
            b,
            directory,
        ));
    }
}

/// The index knows of a path what it last listed of it, and nothing of a path that it
/// does not list.
pub proof fn law_last_listed_is_known(
    listing: Seq<(String, FileSyncInfo)>,
    entry: (String, FileSyncInfo),
    path: Seq<char>,
)
    ensures
        known(Seq::empty()) == Map::<Seq<char>, FileSyncInfo>::empty(),
        known(listing.push(entry)).contains_key(entry.0@),
        known(listing.push(entry))[entry.0@] == entry.1,
        path != entry.0@ ==> (known(listing.push(entry)).contains_key(path) <==> known(
            listing,
        ).contains_key(path)),
        path != entry.0@ && known(listing).contains_key(path) ==> known(listing.push(entry))[path]
            == known(listing)[path],
{
    assert(listing.push(entry).drop_last() == listing);
}

/// A listed path is cleared just where no file is seen by it.
pub proof fn law_stale_paths_have_no_file(
    files: Seq<(Seq<char>, Seq<char>)>,
    listed: Seq<Seq<char>>,
    path: Seq<char>,
)
    ensures
        stale_paths(files, Seq::empty()).len() == 0,
        (exists|i: int| 0 <= i < files.len() && (#[trigger] files[i]).1 == path) ==> stale_paths(
            files,
            listed.push(path),
        ) == stale_paths(files, listed),
        (forall|i: int| 0 <= i < files.len() ==> (#[trigger] files[i]).1 != path) ==> stale_paths(
            files,
            listed.push(path),
        ) == stale_paths(files, listed).push(path),
{
    assert(listed.push(path).drop_last() == listed);
    if exists|i: int| 0 <= i < files.len() && (#[trigger] files[i]).1 == path {
        let i = choose|i: int| 0 <= i < files.len() && (#[trigger] files[i]).1 == path;
        assert(relatives(files)[i] == path);
    }
    if relatives(files).contains(path) {
        let i = relatives(files).index_of(path);
        assert(files[i].1 == path);
    }
}

/// What a crawl asks of the index goes to its own catalog. A deletion goes to the address
/// of the file that is replaced, or of the path that is cleared; what is handed over are
/// the chunks that the crawl holds, under the label. Nothing else is asked.
pub proof fn law_crawl_asks_for_its_catalog(client: ApiClient, c: CrawlView, label: Seq<char>)
    ensures
        c.phase == Phase::Replacing ==> asked_of(client, c, label) == Some(
            RequestView {
                method: Method::Delete,
                url: client.base() + api_client::file_path(c.catalog, c.files[c.at].1),
                bearer: Some(client.secret()),
                body: None,
            },
        ),
        c.phase == Phase::Clearing ==> asked_of(client, c, label) == Some(
            RequestView {
                method: Method::Delete,
                url: client.base() + api_client::file_path(c.catalog, c.listed[c.at]),
                bearer: Some(client.secret()),
                body: None,
            },
        ),
        c.phase == Phase::Ingesting && c.pending.len() > 0 ==> asked_of(client, c, label) == Some(
            RequestView {
                method: Method::Post,
                url: client.base() + "/v1/ingest"@,
                bearer: Some(client.secret()),
                body: Some(api_client::ingest_body(c.pending, label)),
            },
        ),
        c.phase == Phase::Ingesting && c.pending.len() == 0 ==> asked_of(client, c, label) is None,
        c.phase == Phase::Reading || c.phase == Phase::Chunking ==> asked_of(client, c, label) is None,
{
}

/// A package is looked up just in a monorepo. Elsewhere it is named by the directory of
/// the file, or by the catalog where the file has none.
pub proof fn law_package_of_a_file(
    c: CrawlView,
    path: Seq<char>,
    name: String,
    directory: Option<Seq<char>>,
)
    ensures
        package_fits(c, path, PackageName::Lookup) <==> c.monorepo,
        package_fits(c, path, PackageName::Named(name)) ==> !c.monorepo,
        package_fits(c, path, PackageName::Named(name)) && paths::portable(path) ==> name@
            == match paths::directory_name(path) {
            Some(d) => d,
            None => c.catalog,
        },
        folder_package(directory, c.catalog) == match directory {
            Some(d) => d,
            None => c.catalog,
        },
{
}

/// Each count is named for what it counts.
pub proof fn law_counts_are_named(stats: CrawlStats)
    ensures
        counts_text(stats) == text::decimal(stats.new_files as nat) + " new, "@ + text::decimal(
            stats.changed_files as nat,
        ) + " changed, "@ + text::decimal(stats.unchanged_files as nat) + " unchanged, "@
            + text::decimal(stats.deleted_files as nat) + " deleted"@,
{
}

/// Steps and events are viewed as they are.
pub proof fn law_events_are_viewed_as_they_are(step: CrawlStep, event: CrawlEvent)
    ensures
        step matches CrawlStep::Go(c) ==> step@ == CrawlStepView::Go(c@),
        step matches CrawlStep::Done(s) ==> step@ == CrawlStepView::Done(s),
        step matches CrawlStep::Failed(e) ==> step@ == CrawlStepView::Failed(e@),
        event matches CrawlEvent::Content(Some(s)) ==> event@ == EventView::Content(Some(s@)),
        event matches CrawlEvent::Content(None) ==> event@ == EventView::Content(None),
        event matches CrawlEvent::Deleted(Ok(())) ==> event@ == EventView::Deleted(Ok(())),
        event matches CrawlEvent::Deleted(Err(e)) ==> event@ == EventView::Deleted(Err(e@)),
        event matches CrawlEvent::Chunked(Ok(chunks)) ==> event@ == EventView::Chunked(
            Ok(api_client::chunks_of(chunks@)),
        ),
        event matches CrawlEvent::Chunked(Err(e)) ==> event@ == EventView::Chunked(Err(e@)),
        event matches CrawlEvent::Ingested(Ok(n)) ==> event@ == EventView::Ingested(Ok(n)),
        event matches CrawlEvent::Ingested(Err(e)) ==> event@ == EventView::Ingested(Err(e@)),
{
}

/// What a crawl does next is what its phase asks for: to read the file that it is at, to
/// take that file or the listed path that it is at out of the index, to cut that file into
/// chunks of 6000, or to hand its chunks over. What can come of it is what it was about to
/// do, of any outcome that can be counted.
pub proof fn law_phase_asks_for_the_action(c: CrawlView, action: CrawlAction, event: EventView)
    requires
        action_fits(c, action),
    ensures
        c.phase == Phase::Reading ==> (action matches CrawlAction::Read { path } && path@
            == c.files[c.at].0) && (expected(c, event) <==> event is Content),
        c.phase == Phase::Replacing ==> (action matches CrawlAction::Delete { relative_path }
            && relative_path@ == c.files[c.at].1) && (expected(c, event) <==> event is Deleted),
        c.phase == Phase::Clearing ==> (action matches CrawlAction::Delete { relative_path }
            && relative_path@ == c.listed[c.at]) && (expected(c, event) <==> event is Deleted),
        c.phase == Phase::Chunking ==> (action matches CrawlAction::Chunk {
            path,
            package,
            target_size,
        } && path@ == c.files[c.at].0 && target_size == 6000 && package_fits(c, path@, package))
            && (expected(c, event) <==> event is Chunked),
        c.phase == Phase::Ingesting ==> action is Ingest && (expected(c, event) <==> event
            is Ingested && (event matches EventView::Ingested(Ok(n)) ==> c.stats.chunks_ingested + n
            <= usize::MAX)),
{
}

} // verus!
