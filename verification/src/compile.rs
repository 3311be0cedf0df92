//! The whole compile: normalize every source document of both categories,
//! enforce slug uniqueness per category, order and paginate, and produce
//! the deterministic plan of output files.  A parse failure or a slug
//! collision aborts the build with an error naming the offending document
//! paths, and no output plan is produced.  The caller performs the writes
//! (crash-safely, to a temporary file renamed into place) and prunes stale
//! files; the plan itself is a pure function of the inputs.

use vstd::prelude::*;
use vstd::string::*;
use crate::front_matter::ParseReason;
use crate::json;
use crate::order;
use crate::order::posts_view;
use crate::paginate;
use crate::paginate::{PageData, spec_page, spec_total_pages};
use crate::post;
use crate::post::{Category, Post, PostModel};
use crate::site::{SiteConfig, SiteConfigModel, SiteMetaData, SiteMetaDataModel};
use crate::text;

verus! {

/// One source document as handed in by the loader.
pub struct SourceDocModel {
    pub path: Seq<u8>,
    pub bytes: Seq<u8>,
}

/// One source document as handed in by the loader.
pub struct SourceDoc {
    pub path: Vec<u8>,
    pub bytes: Vec<u8>,
}

impl View for SourceDoc {
    type V = SourceDocModel;

    open spec fn view(&self) -> SourceDocModel {
        SourceDocModel { path: self.path@, bytes: self.bytes@ }
    }
}

pub open spec fn docs_view(v: Seq<SourceDoc>) -> Seq<SourceDocModel> {
    v.map_values(|d: SourceDoc| d@)
}

/// A slug claimed by two documents of one category (mathematical model).
pub struct CollisionErrorModel {
    pub slug: Seq<u8>,
    pub first_path: Seq<u8>,
    pub second_path: Seq<u8>,
}

/// A slug claimed by two documents of one category.
#[derive(Debug)]
pub struct CollisionError {
    pub slug: Vec<u8>,
    pub first_path: Vec<u8>,
    pub second_path: Vec<u8>,
}

impl View for CollisionError {
    type V = CollisionErrorModel;

    open spec fn view(&self) -> CollisionErrorModel {
        CollisionErrorModel {
            slug: self.slug@,
            first_path: self.first_path@,
            second_path: self.second_path@,
        }
    }
}

/// A fatal build failure (mathematical model).
pub enum BuildErrorModel {
    /// A document failed to parse; the build names it and the reason.
    Parse { path: Seq<u8>, reason: ParseReason },
    /// Two documents of one category claimed the same slug.
    Collision(CollisionErrorModel),
}

/// A fatal build failure.
#[derive(Debug)]
pub enum BuildError {
    Parse { path: Vec<u8>, reason: ParseReason },
    Collision(CollisionError),
}

impl View for BuildError {
    type V = BuildErrorModel;

    open spec fn view(&self) -> BuildErrorModel {
        match self {
            BuildError::Parse { path, reason } => BuildErrorModel::Parse {
                path: path@,
                reason: *reason,
            },
            BuildError::Collision(e) => BuildErrorModel::Collision(e@),
        }
    }
}

/// One planned output file.
pub struct FileWriteModel {
    pub path: Seq<u8>,
    pub contents: Seq<u8>,
}

/// One planned output file; the path is relative to the data output root.
pub struct FileWrite {
    pub path: Vec<u8>,
    pub contents: Vec<u8>,
}

impl View for FileWrite {
    type V = FileWriteModel;

    open spec fn view(&self) -> FileWriteModel {
        FileWriteModel { path: self.path@, contents: self.contents@ }
    }
}

pub open spec fn writes_view(v: Seq<FileWrite>) -> Seq<FileWriteModel> {
    v.map_values(|w: FileWrite| w@)
}

/// Normalize the documents of one category in order, stopping at the first
/// failure.
pub open spec fn spec_posts_of(docs: Seq<SourceDocModel>, cat: Category, n: int) -> Result<
    Seq<PostModel>,
    BuildErrorModel,
>
    decreases docs.len(),
{
    if docs.len() == 0 {
        Ok(Seq::empty())
    } else {
        match spec_posts_of(docs.drop_last(), cat, n) {
            Err(e) => Err(e),
            Ok(ps) => match post::spec_make_post(docs.last().path, docs.last().bytes, cat, n) {
                Err(r) => Err(BuildErrorModel::Parse { path: docs.last().path, reason: r }),
                Ok(p) => Ok(ps.push(p)),
            },
        }
    }
}

/// A failed prefix decides the whole fold.
proof fn lemma_posts_of_prefix(docs: Seq<SourceDocModel>, cat: Category, n: int, m: int)
    requires
        0 <= m <= docs.len(),
        spec_posts_of(docs.take(m), cat, n) is Err,
    ensures
        spec_posts_of(docs, cat, n) == spec_posts_of(docs.take(m), cat, n),
    decreases docs.len(),
{
    if docs.len() > m {
        assert(docs.drop_last().take(m) =~= docs.take(m));
        lemma_posts_of_prefix(docs.drop_last(), cat, n, m);
    } else {
        assert(docs.take(m) =~= docs);
    }
}

/// Normalization keeps one post per document.
pub proof fn lemma_posts_of_len(docs: Seq<SourceDocModel>, cat: Category, n: int)
    ensures
        spec_posts_of(docs, cat, n) matches Ok(ps) ==> ps.len() == docs.len(),
    decreases docs.len(),
{
    if docs.len() > 0 {
        lemma_posts_of_len(docs.drop_last(), cat, n);
    }
}

/// Every normalized post has a valid publish date.
pub proof fn lemma_posts_dates_valid(docs: Seq<SourceDocModel>, cat: Category, n: int)
    ensures
        spec_posts_of(docs, cat, n) matches Ok(ps) ==> forall|i: int|
            0 <= i < ps.len() ==> (#[trigger] ps[i]).publish_date.valid(),
    decreases docs.len(),
{
    if docs.len() > 0 {
        lemma_posts_dates_valid(docs.drop_last(), cat, n);
    }
}

/// No two posts of the collection claim one slug.
pub open spec fn distinct_slugs(s: Seq<PostModel>) -> bool {
    forall|i: int, j: int| 0 <= i < j < s.len() ==> (#[trigger] s[i]).slug != (#[trigger] s[j]).slug
}

/// The scan for the first colliding pair, in document order: pairs are
/// visited by rising second index, then rising first index.
pub open spec fn find_collision_from(s: Seq<PostModel>, j: int, i: int) -> Option<(int, int)>
    decreases s.len() - j, j - i,
{
    if j >= s.len() || j < 0 || i < 0 {
        None
    } else if i >= j {
        find_collision_from(s, j + 1, 0)
    } else if s[i].slug == s[j].slug {
        Some((i, j))
    } else {
        find_collision_from(s, j, i + 1)
    }
}

pub open spec fn find_collision(s: Seq<PostModel>) -> Option<(int, int)> {
    find_collision_from(s, 1, 0)
}

/// The scan finds a collision exactly when one exists, and what it names is
/// a real colliding pair.
pub proof fn lemma_find_collision_from(s: Seq<PostModel>, j: int, i: int)
    requires
        0 <= i <= j,
        1 <= j,
        forall|a: int, b: int| 0 <= a < b < j && b < s.len() ==> (#[trigger] s[a]).slug != (
        #[trigger] s[b]).slug,
        forall|a: int| 0 <= a < i && j < s.len() ==> (#[trigger] s[a]).slug != s[j].slug,
    ensures
        find_collision_from(s, j, i) is None ==> distinct_slugs(s),
        find_collision_from(s, j, i) matches Some(pr) ==> 0 <= pr.0 < pr.1 < s.len()
            && s[pr.0].slug == s[pr.1].slug,
    decreases s.len() - j, j - i,
{
    if j >= s.len() {
    } else if i >= j {
        lemma_find_collision_from(s, j + 1, 0);
    } else if s[i].slug == s[j].slug {
    } else {
        lemma_find_collision_from(s, j, i + 1);
    }
}

pub proof fn lemma_find_collision(s: Seq<PostModel>)
    ensures
        find_collision(s) is None <==> distinct_slugs(s),
        find_collision(s) matches Some(pr) ==> 0 <= pr.0 < pr.1 < s.len() && s[pr.0].slug
            == s[pr.1].slug,
{
    lemma_find_collision_from(s, 1, 0);
    if find_collision(s) is Some {
        let pr = find_collision(s)->Some_0;
        assert(!distinct_slugs(s));
    }
}

/// The collision error named by a colliding pair.
pub open spec fn collision_of(s: Seq<PostModel>, pr: (int, int)) -> CollisionErrorModel {
    CollisionErrorModel {
        slug: s[pr.0].slug,
        first_path: s[pr.0].source_path,
        second_path: s[pr.1].source_path,
    }
}

/// Scan one category for a slug collision.
///
/// `None` comes back exactly when all slugs are distinct; otherwise the
/// error names the slug and the source paths of the first colliding pair in
/// document order.
pub fn check_unique(posts: &Vec<Post>) -> (r: Option<CollisionError>)
    ensures
        r is None <==> find_collision(posts_view(posts@)) is None,
        r is None ==> distinct_slugs(posts_view(posts@)),
        r matches Some(e) ==> find_collision(posts_view(posts@)) matches Some(pr) && e@
            == collision_of(posts_view(posts@), pr),
{
    let ghost sv = posts_view(posts@);
    proof {
        lemma_find_collision(sv);
    }
    let mut j: usize = 1;
    while j < posts.len()
        invariant
            sv == posts_view(posts@),
            1 <= j,
            j <= posts@.len() || posts@.len() <= 1,
            find_collision_from(sv, j as int, 0) == find_collision(sv),
        decreases posts@.len() - j,
    {
        let mut i: usize = 0;
        while i < j
            invariant
                sv == posts_view(posts@),
                0 <= i <= j < posts@.len(),
                find_collision_from(sv, j as int, i as int) == find_collision(sv),
            decreases j - i,
        {
            if text::bytes_eq(posts[i].slug.as_slice(), posts[j].slug.as_slice()) {
                proof {
                    assert(sv[i as int].slug == sv[j as int].slug);
                    assert(find_collision_from(sv, j as int, i as int) == Some((i as int, j as int)));
                }
                return Some(
                    CollisionError {
                        slug: paginate::copy_bytes(&posts[i].slug),
                        first_path: paginate::copy_bytes(&posts[i].source_path),
                        second_path: paginate::copy_bytes(&posts[j].source_path),
                    },
                );
            }
            proof {
                assert(sv[i as int].slug == posts@[i as int].slug@);
                assert(sv[j as int].slug == posts@[j as int].slug@);
            }
            i = i + 1;
        }
        j = j + 1;
    }
    proof {
        if posts@.len() > 1 {
            assert(j as int >= sv.len());
        }
        assert(find_collision(sv) is None);
    }
    None
}

/// The name of listing page `n` (1-based) inside its pages directory.
pub open spec fn page_file_name(n: int) -> Seq<u8> {
    "page_".spec_bytes() + json::dec_bytes(n) + ".json".spec_bytes()
}

/// The planned page files of one category, in page order.
pub open spec fn spec_page_writes(s: Seq<PostModel>, p: int, prefix: Seq<u8>) -> Seq<
    FileWriteModel,
> {
    Seq::new(
        spec_total_pages(s.len() as int, p) as nat,
        |k: int|
            FileWriteModel {
                path: prefix + page_file_name(k + 1),
                contents: json::json_of_page(spec_page(s, p, k)),
            },
    )
}

/// The planned full-post files of one category, in collection order.
pub open spec fn spec_post_writes(s: Seq<PostModel>, prefix: Seq<u8>) -> Seq<FileWriteModel> {
    Seq::new(
        s.len(),
        |i: int|
            FileWriteModel {
                path: prefix + s[i].slug + ".json".spec_bytes(),
                contents: json::json_of_post(s[i]),
            },
    )
}

/// The aggregate site metadata of a compile.
pub open spec fn spec_site_meta(cfg: SiteConfigModel, c_posts: int, c_arch: int)
    -> SiteMetaDataModel {
    SiteMetaDataModel {
        site_title: cfg.site_title,
        description: cfg.description,
        base_url: cfg.base_url,
        pagination_size: cfg.pagination_size,
        total_posts: c_posts,
        total_pages: spec_total_pages(c_posts, cfg.pagination_size),
        total_archive_pages: spec_total_pages(c_arch, cfg.pagination_size),
        theme_default: cfg.theme_default,
    }
}

/// The whole output plan of a successful compile, in write order: the site
/// metadata, the listing pages of both categories, then every post of both
/// categories.
#[verifier::opaque]
pub open spec fn spec_output_writes(
    sp: Seq<PostModel>,
    sa: Seq<PostModel>,
    cfg: SiteConfigModel,
) -> Seq<FileWriteModel> {
    let meta = spec_site_meta(cfg, sp.len() as int, sa.len() as int);
    seq![
        FileWriteModel {
            path: "site_data.json".spec_bytes(),
            contents: json::json_of_site_meta(meta),
        },
    ] + spec_page_writes(sp, cfg.pagination_size, "pages/".spec_bytes()) + spec_page_writes(
        sa,
        cfg.pagination_size,
        "archives/pages/".spec_bytes(),
    ) + spec_post_writes(sp, "posts/".spec_bytes()) + spec_post_writes(
        sa,
        "archives/".spec_bytes(),
    )
}

/// The whole compile as a function of its inputs.
pub open spec fn spec_compile(
    posts_docs: Seq<SourceDocModel>,
    archive_docs: Seq<SourceDocModel>,
    cfg: SiteConfigModel,
) -> Result<Seq<FileWriteModel>, BuildErrorModel> {
    match spec_posts_of(posts_docs, Category::Post, cfg.excerpt_length) {
        Err(e) => Err(e),
        Ok(ps) => match spec_posts_of(archive_docs, Category::Archive, cfg.excerpt_length) {
            Err(e) => Err(e),
            Ok(ar) => match find_collision(ps) {
                Some(pr) => Err(BuildErrorModel::Collision(collision_of(ps, pr))),
                None => match find_collision(ar) {
                    Some(pr) => Err(BuildErrorModel::Collision(collision_of(ar, pr))),
                    None => Ok(
                        spec_output_writes(order::spec_sort(ps), order::spec_sort(ar), cfg),
                    ),
                },
            },
        },
    }
}

/// An executable compile result, seen as its model.
pub open spec fn compile_result_view(r: Result<Vec<FileWrite>, BuildError>) -> Result<
    Seq<FileWriteModel>,
    BuildErrorModel,
> {
    match r {
        Ok(ws) => Ok(writes_view(ws@)),
        Err(e) => Err(e@),
    }
}

/// Normalize the documents of one category, stopping at the first failure.
fn normalize_docs(docs: &Vec<SourceDoc>, cat: Category, n: usize) -> (r: Result<
    Vec<Post>,
    BuildError,
>)
    ensures
        match r {
            Ok(ps) => spec_posts_of(docs_view(docs@), cat, n as int) == Ok::<
                Seq<PostModel>,
                BuildErrorModel,
            >(posts_view(ps@)),
            Err(e) => spec_posts_of(docs_view(docs@), cat, n as int) == Err::<
                Seq<PostModel>,
                BuildErrorModel,
            >(e@),
        },
{
    let ghost dv = docs_view(docs@);
    let mut acc: Vec<Post> = Vec::new();
    let mut i: usize = 0;
    proof {
        assert(dv.take(0) =~= Seq::<SourceDocModel>::empty());
        assert(posts_view(acc@) =~= Seq::<PostModel>::empty());
    }
    while i < docs.len()
        invariant
            dv == docs_view(docs@),
            0 <= i <= docs@.len(),
            spec_posts_of(dv.take(i as int), cat, n as int) == Ok::<
                Seq<PostModel>,
                BuildErrorModel,
            >(posts_view(acc@)),
        decreases docs@.len() - i,
    {
        let d = &docs[i];
        proof {
            assert(dv.take(i + 1).drop_last() =~= dv.take(i as int));
            assert(dv.take(i + 1).last() == dv[i as int]);
            assert(dv[i as int] == docs@[i as int]@);
        }
        match post::make_post(d.path.as_slice(), d.bytes.as_slice(), cat, n) {
            Ok(p) => {
                let ghost accv = posts_view(acc@);
                acc.push(p);
                proof {
                    assert(posts_view(acc@) =~= accv.push(acc@.last()@));
                }
            },
            Err(reason) => {
                proof {
                    assert(spec_posts_of(dv.take(i + 1), cat, n as int) == Err::<
                        Seq<PostModel>,
                        BuildErrorModel,
                    >(BuildErrorModel::Parse { path: dv[i as int].path, reason }));
                    lemma_posts_of_prefix(dv, cat, n as int, i + 1);
                }
                return Err(
                    BuildError::Parse { path: paginate::copy_bytes(&d.path), reason },
                );
            },
        }
        i = i + 1;
    }
    proof {
        assert(dv.take(dv.len() as int) =~= dv);
    }
    Ok(acc)
}

/// All dates of the collection are valid.
pub open spec fn all_dates_valid(s: Seq<PostModel>) -> bool {
    forall|i: int| 0 <= i < s.len() ==> (#[trigger] s[i]).publish_date.valid()
}

/// Sorting keeps every date valid.
proof fn lemma_sort_preserves_valid(s: Seq<PostModel>)
    requires
        all_dates_valid(s),
    ensures
        all_dates_valid(order::spec_sort(s)),
{
    broadcast use vstd::seq_lib::group_to_multiset_ensures;

    order::lemma_spec_sort_multiset(s);
    let t = order::spec_sort(s);
    assert forall|i: int| 0 <= i < t.len() implies (#[trigger] t[i]).publish_date.valid() by {
        assert(t.contains(t[i]));
        assert(t.to_multiset().count(t[i]) > 0);
        assert(s.to_multiset().count(t[i]) > 0);
        assert(s.contains(t[i]));
        let w = choose|w: int| 0 <= w < s.len() && s[w] == t[i];
        assert(s[w].publish_date.valid());
    }
}

/// Append the planned page files of one category.
fn push_page_writes(
    out: &mut Vec<FileWrite>,
    pages: &Vec<PageData>,
    prefix: &[u8],
    Ghost(s): Ghost<Seq<PostModel>>,
    Ghost(p): Ghost<int>,
)
    requires
        p >= 1,
        s.len() + p <= usize::MAX,
        all_dates_valid(s),
        pages@.len() == spec_total_pages(s.len() as int, p),
        forall|k: int| 0 <= k < pages@.len() ==> (#[trigger] pages@[k])@ == spec_page(s, p, k),
    ensures
        writes_view(final(out)@) == writes_view(old(out)@) + spec_page_writes(s, p, prefix@),
{
    let ghost target = spec_page_writes(s, p, prefix@);
    let mut k: usize = 0;
    proof {
        assert(writes_view(out@) =~= writes_view(old(out)@) + target.take(0));
    }
    while k < pages.len()
        invariant
            p >= 1,
            s.len() + p <= usize::MAX,
            all_dates_valid(s),
            pages@.len() == spec_total_pages(s.len() as int, p),
            forall|k2: int| 0 <= k2 < pages@.len() ==> (#[trigger] pages@[k2])@ == spec_page(s, p, k2),
            target == spec_page_writes(s, p, prefix@),
            0 <= k <= pages@.len(),
            writes_view(out@) == writes_view(old(out)@) + target.take(k as int),
        decreases pages@.len() - k,
    {
        let pg = &pages[k];
        proof {
            paginate::lemma_page_bounds(s.len() as int, p, k as int);
            let items = pg@.items;
            assert forall|x: int| 0 <= x < items.len() implies (
            #[trigger] items[x]).publish_date.valid() by {
                assert(items[x] == paginate::spec_summaries(s)[k * p + x]);
                assert(paginate::spec_summaries(s)[k * p + x] == paginate::summary_of(
                    s[k * p + x],
                ));
            }
        }
        let mut path: Vec<u8> = Vec::new();
        text::push_bytes(&mut path, prefix);
        text::push_bytes(&mut path, "page_".as_bytes());
        json::push_dec(&mut path, (k as u64) + 1);
        text::push_bytes(&mut path, ".json".as_bytes());
        let contents = json::page_to_json(pg);
        let ghost before = writes_view(out@);
        proof {
            assert(path@ =~= prefix@ + page_file_name(k as int + 1));
        }
        out.push(FileWrite { path, contents });
        proof {
            assert(target[k as int] == FileWriteModel {
                path: prefix@ + page_file_name(k as int + 1),
                contents: json::json_of_page(spec_page(s, p, k as int)),
            });
            assert(writes_view(out@) =~= before.push(out@.last()@));
            assert(writes_view(out@) =~= writes_view(old(out)@) + target.take(k + 1));
        }
        k = k + 1;
    }
    proof {
        assert(target.take(pages@.len() as int) =~= target);
    }
}

/// Append the planned full-post files of one category.
fn push_post_writes(out: &mut Vec<FileWrite>, posts: &Vec<Post>, prefix: &[u8])
    requires
        all_dates_valid(posts_view(posts@)),
    ensures
        writes_view(final(out)@) == writes_view(old(out)@) + spec_post_writes(
            posts_view(posts@),
            prefix@,
        ),
{
    let ghost s = posts_view(posts@);
    let ghost target = spec_post_writes(s, prefix@);
    let mut i: usize = 0;
    proof {
        assert(writes_view(out@) =~= writes_view(old(out)@) + target.take(0));
    }
    while i < posts.len()
        invariant
            s == posts_view(posts@),
            all_dates_valid(s),
            target == spec_post_writes(s, prefix@),
            0 <= i <= posts@.len(),
            writes_view(out@) == writes_view(old(out)@) + target.take(i as int),
        decreases posts@.len() - i,
    {
        let pst = &posts[i];
        proof {
            assert(s[i as int] == posts@[i as int]@);
            assert(s[i as int].publish_date.valid());
        }
        let mut path: Vec<u8> = Vec::new();
        text::push_bytes(&mut path, prefix);
        text::push_bytes(&mut path, pst.slug.as_slice());
        text::push_bytes(&mut path, ".json".as_bytes());
        let contents = json::post_to_json(pst);
        let ghost before = writes_view(out@);
        proof {
            assert(path@ =~= prefix@ + s[i as int].slug + ".json".spec_bytes());
        }
        out.push(FileWrite { path, contents });
        proof {
            assert(writes_view(out@) =~= before.push(out@.last()@));
            assert(writes_view(out@) =~= writes_view(old(out)@) + target.take(i + 1));
        }
        i = i + 1;
    }
    proof {
        assert(target.take(posts@.len() as int) =~= target);
    }
}

/// Lay out the whole output plan of already-sorted collections.
fn plan_outputs(
    sorted_posts: &Vec<Post>,
    sorted_archives: &Vec<Post>,
    config: &SiteConfig,
    total_posts: usize,
) -> (out: Vec<FileWrite>)
    requires
        config.wf(),
        sorted_posts@.len() + config.pagination_size <= usize::MAX,
        sorted_archives@.len() + config.pagination_size <= usize::MAX,
        all_dates_valid(posts_view(sorted_posts@)),
        all_dates_valid(posts_view(sorted_archives@)),
        total_posts == sorted_posts@.len(),
    ensures
        writes_view(out@) == spec_output_writes(
            posts_view(sorted_posts@),
            posts_view(sorted_archives@),
            config@,
        ),
{
    let ghost sp = posts_view(sorted_posts@);
    let ghost sa = posts_view(sorted_archives@);
    let pages = paginate::paginate(sorted_posts, config.pagination_size);
    let archive_pages = paginate::paginate(sorted_archives, config.pagination_size);
    proof {
        assert(pages@.len() >= 1);
        assert(archive_pages@.len() >= 1);
    }
    let meta = SiteMetaData {
        site_title: paginate::copy_bytes(&config.site_title),
        description: paginate::copy_bytes(&config.description),
        base_url: paginate::copy_bytes(&config.base_url),
        pagination_size: config.pagination_size,
        total_posts,
        total_pages: pages[0].total_pages,
        total_archive_pages: archive_pages[0].total_pages,
        theme_default: paginate::copy_bytes(&config.theme_default),
    };
    proof {
        assert(pages@[0]@ == spec_page(sp, config.pagination_size as int, 0));
        assert(archive_pages@[0]@ == spec_page(sa, config.pagination_size as int, 0));
        assert(meta@ == spec_site_meta(config@, sp.len() as int, sa.len() as int));
    }
    let mut out: Vec<FileWrite> = Vec::new();
    let mut site_path: Vec<u8> = Vec::new();
    text::push_bytes(&mut site_path, "site_data.json".as_bytes());
    let site_contents = json::site_meta_to_json(&meta);
    proof {
        assert(site_path@ =~= "site_data.json".spec_bytes());
    }
    out.push(FileWrite { path: site_path, contents: site_contents });
    proof {
        assert(writes_view(out@) =~= seq![
            FileWriteModel {
                path: "site_data.json".spec_bytes(),
                contents: json::json_of_site_meta(meta@),
            },
        ]);
    }
    push_page_writes(
        &mut out,
        &pages,
        "pages/".as_bytes(),
        Ghost(sp),
        Ghost(config.pagination_size as int),
    );
    push_page_writes(
        &mut out,
        &archive_pages,
        "archives/pages/".as_bytes(),
        Ghost(sa),
        Ghost(config.pagination_size as int),
    );
    push_post_writes(&mut out, sorted_posts, "posts/".as_bytes());
    push_post_writes(&mut out, sorted_archives, "archives/".as_bytes());
    proof {
        reveal(spec_output_writes);
        assert(writes_view(out@) =~= spec_output_writes(sp, sa, config@));
    }
    out
}

/// The paths the plan writes.
pub open spec fn write_paths(ws: Seq<FileWriteModel>) -> Seq<Seq<u8>> {
    ws.map_values(|w: FileWriteModel| w.path)
}

/// Is `path` produced by the plan?
fn path_planned(writes: &Vec<FileWrite>, path: &[u8]) -> (r: bool)
    ensures
        r == write_paths(writes_view(writes@)).contains(path@),
{
    let ghost wp = write_paths(writes_view(writes@));
    let mut i: usize = 0;
    while i < writes.len()
        invariant
            wp == write_paths(writes_view(writes@)),
            0 <= i <= writes@.len(),
            forall|j: int| 0 <= j < i ==> wp[j] != path@,
        decreases writes@.len() - i,
    {
        if text::bytes_eq(writes[i].path.as_slice(), path) {
            proof {
                assert(wp[i as int] == path@);
            }
            return true;
        }
        proof {
            assert(wp[i as int] == writes@[i as int].path@);
        }
        i = i + 1;
    }
    proof {
        if wp.contains(path@) {
            let w = choose|w: int| 0 <= w < wp.len() && wp[w] == path@;
        }
    }
    false
}

/// The previously-written files that the new plan no longer produces: the
/// caller deletes them, so a shrinking content set leaves no orphan page or
/// post files behind.
pub fn stale_paths(previous: &Vec<Vec<u8>>, writes: &Vec<FileWrite>) -> (r: Vec<Vec<u8>>)
    ensures
        crate::front_matter::seqs_view(r@) == crate::front_matter::seqs_view(previous@).filter(
            |q: Seq<u8>| !write_paths(writes_view(writes@)).contains(q),
        ),
{
    let ghost pv = crate::front_matter::seqs_view(previous@);
    let ghost pred = |q: Seq<u8>| !write_paths(writes_view(writes@)).contains(q);
    let mut out: Vec<Vec<u8>> = Vec::new();
    let mut i: usize = 0;
    proof {
        assert(pv.take(0) =~= Seq::<Seq<u8>>::empty());
        assert(crate::front_matter::seqs_view(out@) =~= pv.take(0).filter(pred));
    }
    while i < previous.len()
        invariant
            pv == crate::front_matter::seqs_view(previous@),
            pred == (|q: Seq<u8>| !write_paths(writes_view(writes@)).contains(q)),
            0 <= i <= previous@.len(),
            crate::front_matter::seqs_view(out@) == pv.take(i as int).filter(pred),
        decreases previous@.len() - i,
    {
        let ghost outv = crate::front_matter::seqs_view(out@);
        proof {
            assert(pv.take(i + 1) =~= pv.take(i as int).push(pv[i as int]));
            pv.take(i as int).lemma_filter_push(pv[i as int], pred);
            assert(pv[i as int] == previous@[i as int]@);
        }
        if !path_planned(writes, previous[i].as_slice()) {
            out.push(paginate::copy_bytes(&previous[i]));
            proof {
                assert(crate::front_matter::seqs_view(out@) =~= outv.push(pv[i as int]));
            }
        }
        i = i + 1;
    }
    proof {
        assert(pv.take(previous@.len() as int) =~= pv);
    }
    out
}

/// Compile the whole site.
///
/// The result is exactly `spec_compile` of the inputs: on success the full
/// output plan in write order, otherwise the first parse failure or slug
/// collision.  Because the plan is a pure function of the source documents
/// and the configuration, recompiling unchanged inputs plans byte-identical
/// output.
#[verifier::rlimit(100)]
pub fn compile(
    posts_docs: &Vec<SourceDoc>,
    archive_docs: &Vec<SourceDoc>,
    config: &SiteConfig,
) -> (r: Result<Vec<FileWrite>, BuildError>)
    requires
        config.wf(),
        posts_docs@.len() + config.pagination_size <= usize::MAX,
        archive_docs@.len() + config.pagination_size <= usize::MAX,
    ensures
        compile_result_view(r) == spec_compile(
            docs_view(posts_docs@),
            docs_view(archive_docs@),
            config@,
        ),
{
    let posts = match normalize_docs(posts_docs, Category::Post, config.excerpt_length) {
        Ok(ps) => ps,
        Err(e) => {
            return Err(e);
        },
    };
    let archives = match normalize_docs(archive_docs, Category::Archive, config.excerpt_length) {
        Ok(ps) => ps,
        Err(e) => {
            return Err(e);
        },
    };
    if let Some(e) = check_unique(&posts) {
        return Err(BuildError::Collision(e));
    }
    if let Some(e) = check_unique(&archives) {
        return Err(BuildError::Collision(e));
    }
    proof {
        lemma_posts_dates_valid(
            docs_view(posts_docs@),
            Category::Post,
            config.excerpt_length as int,
        );
        lemma_posts_dates_valid(
            docs_view(archive_docs@),
            Category::Archive,
            config.excerpt_length as int,
        );
        assert(all_dates_valid(posts_view(posts@)));
        assert(all_dates_valid(posts_view(archives@)));
        lemma_sort_preserves_valid(posts_view(posts@));
        lemma_sort_preserves_valid(posts_view(archives@));
    }
    let ghost pv = posts_view(posts@);
    let ghost av = posts_view(archives@);
    let total_posts = posts.len();
    proof {
        lemma_posts_of_len(docs_view(posts_docs@), Category::Post, config.excerpt_length as int);
        lemma_posts_of_len(
            docs_view(archive_docs@),
            Category::Archive,
            config.excerpt_length as int,
        );
        assert(pv.len() == posts_docs@.len());
        assert(av.len() == archive_docs@.len());
    }
    let sorted_posts = order::sort_posts(posts);
    let sorted_archives = order::sort_posts(archives);
    proof {
        order::lemma_spec_sort_len(pv);
        order::lemma_spec_sort_len(av);
        assert(sorted_posts@.len() == pv.len());
        assert(sorted_archives@.len() == av.len());
    }
    let out = plan_outputs(&sorted_posts, &sorted_archives, config, total_posts);
    Ok(out)
}

} // verus!
