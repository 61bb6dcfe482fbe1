//! The in-memory model of the relational store and its well-formedness
//! invariant.
//!
//! Every write operation of the core works against a [`BlogStore`] value:
//! the surrounding process owns one store per transaction scope, and each
//! operation either completes in full or leaves the store exactly as it
//! was: the model of the transactional envelope the relational store
//! provides.

use vstd::prelude::*;
use crate::error::AppError;
use crate::records::{CommentRecord, LinkRecord, PostRecord, PostTagRecord, TagRecord};
use crate::slug::{slugify, spec_slugify, str_views};
use crate::text::str_eq;

verus! {

/// The whole relational state: rows and the next free identifier of each
/// table that allocates one.
pub struct BlogStore {
    pub posts: Vec<PostRecord>,
    pub tags: Vec<TagRecord>,
    pub post_tags: Vec<PostTagRecord>,
    pub comments: Vec<CommentRecord>,
    pub links: Vec<LinkRecord>,
    pub next_post_id: i32,
    pub next_tag_id: i32,
    pub next_comment_id: i32,
    pub next_link_id: i32,
}

pub open spec fn spec_post_ids_ok(posts: Seq<PostRecord>, next: int) -> bool {
    &&& forall|i: int, j: int|
        0 <= i < j < posts.len() ==> #[trigger] posts[i].id != #[trigger] posts[j].id
    &&& forall|i: int| 0 <= i < posts.len() ==> 1 <= (#[trigger] posts[i].id) < next
}

pub open spec fn spec_post_slugs_distinct(posts: Seq<PostRecord>) -> bool {
    forall|i: int, j: int|
        0 <= i < j < posts.len() ==> #[trigger] posts[i].slug@ != #[trigger] posts[j].slug@
}

pub open spec fn spec_tag_ids_ok(tags: Seq<TagRecord>, next: int) -> bool {
    &&& forall|i: int, j: int|
        0 <= i < j < tags.len() ==> #[trigger] tags[i].id != #[trigger] tags[j].id
    &&& forall|i: int| 0 <= i < tags.len() ==> 1 <= (#[trigger] tags[i].id) < next
}

pub open spec fn spec_tag_names_distinct(tags: Seq<TagRecord>) -> bool {
    forall|i: int, j: int|
        0 <= i < j < tags.len() ==> #[trigger] tags[i].name@ != #[trigger] tags[j].name@
}

pub open spec fn spec_tag_slugs_distinct(tags: Seq<TagRecord>) -> bool {
    forall|i: int, j: int|
        0 <= i < j < tags.len() ==> #[trigger] tags[i].slug@ != #[trigger] tags[j].slug@
}

pub open spec fn spec_post_exists(posts: Seq<PostRecord>, id: i32) -> bool {
    exists|i: int| 0 <= i < posts.len() && (#[trigger] posts[i].id) == id
}

pub open spec fn spec_tag_exists(tags: Seq<TagRecord>, id: i32) -> bool {
    exists|i: int| 0 <= i < tags.len() && (#[trigger] tags[i].id) == id
}

pub open spec fn spec_assocs_ok(
    assocs: Seq<PostTagRecord>,
    posts: Seq<PostRecord>,
    tags: Seq<TagRecord>,
) -> bool {
    &&& forall|i: int, j: int| 0 <= i < j < assocs.len() ==> #[trigger] assocs[i] != #[trigger] assocs[j]
    &&& forall|i: int|
        0 <= i < assocs.len() ==> spec_post_exists(posts, (#[trigger] assocs[i]).post_id)
            && spec_tag_exists(tags, assocs[i].tag_id)
}

pub open spec fn spec_comment_ids_ok(comments: Seq<CommentRecord>, next: int) -> bool {
    &&& forall|i: int, j: int|
        0 <= i < j < comments.len() ==> #[trigger] comments[i].id != #[trigger] comments[j].id
    &&& forall|i: int| 0 <= i < comments.len() ==> 1 <= (#[trigger] comments[i].id) < next
}

pub open spec fn spec_comments_ok(comments: Seq<CommentRecord>, posts: Seq<PostRecord>) -> bool {
    forall|i: int| 0 <= i < comments.len() ==> spec_post_exists(posts, (#[trigger] comments[i]).post_id)
}

pub open spec fn spec_link_ids_ok(links: Seq<LinkRecord>, next: int) -> bool {
    &&& forall|i: int, j: int|
        0 <= i < j < links.len() ==> #[trigger] links[i].id != #[trigger] links[j].id
    &&& forall|i: int| 0 <= i < links.len() ==> 1 <= (#[trigger] links[i].id) < next
}

impl BlogStore {
    /// The store's well-formedness: unique identifiers below their next
    /// counter, unique post slugs, unique tag names and slugs, and
    /// referential integrity of associations and comments.
    pub open spec fn wf(self) -> bool {
        &&& 1 <= self.next_post_id
        &&& 1 <= self.next_tag_id
        &&& 1 <= self.next_comment_id
        &&& 1 <= self.next_link_id
        &&& spec_post_ids_ok(self.posts@, self.next_post_id as int)
        &&& spec_post_slugs_distinct(self.posts@)
        &&& self.posts@.len() < self.next_post_id
        &&& spec_tag_ids_ok(self.tags@, self.next_tag_id as int)
        &&& spec_tag_names_distinct(self.tags@)
        &&& spec_tag_slugs_distinct(self.tags@)
        &&& self.tags@.len() < self.next_tag_id
        &&& spec_assocs_ok(self.post_tags@, self.posts@, self.tags@)
        &&& spec_comment_ids_ok(self.comments@, self.next_comment_id as int)
        &&& spec_comments_ok(self.comments@, self.posts@)
        &&& self.comments@.len() < self.next_comment_id
        &&& spec_link_ids_ok(self.links@, self.next_link_id as int)
        &&& self.links@.len() < self.next_link_id
    }

    /// The post table is untouched.
    pub open spec fn same_posts(self, other: BlogStore) -> bool {
        self.posts@ == other.posts@ && self.next_post_id == other.next_post_id
    }

    /// The tag table is untouched.
    pub open spec fn same_tags(self, other: BlogStore) -> bool {
        self.tags@ == other.tags@ && self.next_tag_id == other.next_tag_id
    }

    /// The association table is untouched.
    pub open spec fn same_assocs(self, other: BlogStore) -> bool {
        self.post_tags@ == other.post_tags@
    }

    /// The comment table is untouched.
    pub open spec fn same_comments(self, other: BlogStore) -> bool {
        self.comments@ == other.comments@ && self.next_comment_id == other.next_comment_id
    }

    /// The link table is untouched.
    pub open spec fn same_links(self, other: BlogStore) -> bool {
        self.links@ == other.links@ && self.next_link_id == other.next_link_id
    }

    /// Nothing observable changed: the rollback guarantee.
    pub open spec fn unchanged(self, other: BlogStore) -> bool {
        &&& self.same_posts(other)
        &&& self.same_tags(other)
        &&& self.same_assocs(other)
        &&& self.same_comments(other)
        &&& self.same_links(other)
    }

    /// An empty store.
    pub fn new() -> (r: BlogStore)
        ensures
            r.wf(),
            r.posts@.len() == 0,
            r.tags@.len() == 0,
            r.post_tags@.len() == 0,
            r.comments@.len() == 0,
            r.links@.len() == 0,
            r.next_post_id == 1,
            r.next_tag_id == 1,
            r.next_comment_id == 1,
            r.next_link_id == 1,
    {
        BlogStore {
            posts: Vec::new(),
            tags: Vec::new(),
            post_tags: Vec::new(),
            comments: Vec::new(),
            links: Vec::new(),
            next_post_id: 1,
            next_tag_id: 1,
            next_comment_id: 1,
            next_link_id: 1,
        }
    }
}

/// The first tag whose name reads `name`, scanning in table order.
pub open spec fn spec_find_tag_by_name(tags: Seq<TagRecord>, name: Seq<char>) -> Option<TagRecord>
    decreases tags.len(),
{
    if tags.len() == 0 {
        None
    } else if tags[0].name@ == name {
        Some(tags[0])
    } else {
        spec_find_tag_by_name(tags.drop_first(), name)
    }
}

/// Whether some tag already owns this name.
pub open spec fn spec_tag_name_taken(tags: Seq<TagRecord>, name: Seq<char>) -> bool {
    exists|i: int| 0 <= i < tags.len() && (#[trigger] tags[i].name@) == name
}

/// Whether some tag already owns this slug.
pub open spec fn spec_tag_slug_taken(tags: Seq<TagRecord>, slug: Seq<char>) -> bool {
    exists|i: int| 0 <= i < tags.len() && (#[trigger] tags[i].slug@) == slug
}

/// A found tag is a member, and finding succeeds exactly when the name is
/// taken.
pub proof fn lemma_find_tag_by_name(tags: Seq<TagRecord>, name: Seq<char>)
    ensures
        spec_find_tag_by_name(tags, name) is Some <==> spec_tag_name_taken(tags, name),
        match spec_find_tag_by_name(tags, name) {
            Some(t) => exists|i: int|
                0 <= i < tags.len() && (#[trigger] tags[i]) == t && t.name@ == name,
            None => true,
        },
    decreases tags.len(),
{
    if tags.len() > 0 {
        lemma_find_tag_by_name(tags.drop_first(), name);
        if tags[0].name@ != name {
            if spec_tag_name_taken(tags, name) {
                let i = choose|i: int| 0 <= i < tags.len() && (#[trigger] tags[i].name@) == name;
                assert(tags.drop_first()[i - 1].name@ == name);
            }
            match spec_find_tag_by_name(tags.drop_first(), name) {
                Some(t) => {
                    let i = choose|i: int|
                        0 <= i < tags.drop_first().len() && (#[trigger] tags.drop_first()[i]) == t;
                    assert(tags[i + 1] == t);
                },
                None => {},
            }
        }
    }
}

/// Tag identity is stable: a name resolved once keeps resolving to the
/// same record while the table only grows, so two posts naming the same
/// tag share one tag row.
pub proof fn lemma_tag_identity_stable(tags1: Seq<TagRecord>, tags2: Seq<TagRecord>, name: Seq<
    char,
>)
    requires
        tags1.is_prefix_of(tags2),
        spec_find_tag_by_name(tags1, name) is Some,
    ensures
        spec_find_tag_by_name(tags2, name) == spec_find_tag_by_name(tags1, name),
    decreases tags1.len(),
{
    assert(tags1.len() > 0);
    assert(tags2[0] == tags1[0]);
    if tags1[0].name@ != name {
        assert(tags1.drop_first().is_prefix_of(tags2.drop_first())) by {
            assert forall|i: int|
                0 <= i < tags1.drop_first().len() implies #[trigger] tags1.drop_first()[i]
                == tags2.drop_first()[i] by {
                assert(tags1.drop_first()[i] == tags1[i + 1]);
                assert(tags2.drop_first()[i] == tags2[i + 1]);
            }
            assert(tags1.drop_first() =~= tags2.drop_first().subrange(
                0,
                tags1.drop_first().len() as int,
            ));
        }
        lemma_tag_identity_stable(tags1.drop_first(), tags2.drop_first(), name);
    }
}

/// The (name, slug) keys of a tag table, all that conflict checking
/// needs.
pub open spec fn spec_tag_keys(tags: Seq<TagRecord>) -> Seq<(Seq<char>, Seq<char>)> {
    tags.map_values(|t: TagRecord| (t.name@, t.slug@))
}

pub open spec fn spec_key_name_taken(keys: Seq<(Seq<char>, Seq<char>)>, name: Seq<char>) -> bool {
    exists|i: int| 0 <= i < keys.len() && (#[trigger] keys[i]).0 == name
}

pub open spec fn spec_key_slug_taken(keys: Seq<(Seq<char>, Seq<char>)>, slug: Seq<char>) -> bool {
    exists|i: int| 0 <= i < keys.len() && (#[trigger] keys[i]).1 == slug
}

/// Whether reconciling `names` against a table with the given keys runs
/// into a tag-slug collision: the names are resolved in order, and each
/// missing name adds its derived slug to the keys before the next is
/// tried.
pub open spec fn spec_reconcile_conflict(
    keys: Seq<(Seq<char>, Seq<char>)>,
    names: Seq<Seq<char>>,
) -> bool
    decreases names.len(),
{
    if names.len() == 0 {
        false
    } else {
        let name = names[0];
        if spec_key_name_taken(keys, name) {
            spec_reconcile_conflict(keys, names.drop_first())
        } else if spec_key_slug_taken(keys, spec_slugify(name)) {
            true
        } else {
            spec_reconcile_conflict(keys.push((name, spec_slugify(name))), names.drop_first())
        }
    }
}

/// Every member of a filtered sequence is a member of the original.
pub proof fn lemma_filter_members<A>(s: Seq<A>, p: spec_fn(A) -> bool)
    ensures
        forall|x: A| #[trigger] s.filter(p).contains(x) ==> s.contains(x),
    decreases s.len(),
{
    reveal(Seq::filter);
    if s.len() > 0 {
        lemma_filter_members(s.drop_last(), p);
        assert forall|x: A| #[trigger] s.filter(p).contains(x) implies s.contains(x) by {
            if s.drop_last().filter(p).contains(x) {
                let i = choose|i: int|
                    0 <= i < s.drop_last().len() && s.drop_last()[i] == x;
                assert(s[i] == x);
            } else {
                assert(x == s.last());
                assert(s[s.len() - 1] == x);
            }
        }
    }
}

/// Filtering a sequence of pairwise-distinct elements keeps them
/// pairwise distinct.
pub proof fn lemma_filter_distinct<A>(s: Seq<A>, p: spec_fn(A) -> bool)
    requires
        forall|i: int, j: int| 0 <= i < j < s.len() ==> s[i] != s[j],
    ensures
        forall|i: int, j: int|
            0 <= i < j < s.filter(p).len() ==> s.filter(p)[i] != s.filter(p)[j],
    decreases s.len(),
{
    reveal(Seq::filter);
    if s.len() > 0 {
        lemma_filter_distinct(s.drop_last(), p);
        lemma_filter_members(s.drop_last(), p);
        let f = s.drop_last().filter(p);
        if p(s.last()) {
            assert(s.filter(p) == f.push(s.last()));
            assert forall|i: int, j: int|
                0 <= i < j < s.filter(p).len() implies s.filter(p)[i] != s.filter(p)[j] by {
                if j == f.len() {
                    if f[i] == s.last() {
                        assert(f.contains(f[i]));
                        assert(s.drop_last().contains(f[i]));
                        let k = choose|k: int|
                            0 <= k < s.drop_last().len() && s.drop_last()[k] == f[i];
                        assert(s[k] == s[s.len() - 1]);
                    }
                }
            }
        }
    }
}

/// The association row linking `post_id` to a tag.
pub open spec fn spec_assoc_of(post_id: i32) -> spec_fn(TagRecord) -> PostTagRecord {
    |t: TagRecord| PostTagRecord { post_id: post_id, tag_id: t.id }
}

/// The association rows a full tag replacement keeps: those of every
/// other post.
pub open spec fn spec_keeps_other_posts(post_id: i32) -> spec_fn(PostTagRecord) -> bool {
    |pt: PostTagRecord| pt.post_id != post_id
}

/// A full tag replacement leaves the store well-formed: the appended
/// tags are fresh in identifier, name and slug, and the rebuilt
/// association table references only live rows.
proof fn lemma_reconcile_wf(
    old_store: BlogStore,
    new_store: BlogStore,
    post_id: i32,
    resolved: Seq<TagRecord>,
    created: Seq<TagRecord>,
    kept: Seq<PostTagRecord>,
    now: u64,
)
    requires
        old_store.wf(),
        spec_post_exists(old_store.posts@, post_id),
        new_store.posts@ == old_store.posts@,
        new_store.comments@ == old_store.comments@,
        new_store.links@ == old_store.links@,
        new_store.next_post_id == old_store.next_post_id,
        new_store.next_comment_id == old_store.next_comment_id,
        new_store.next_link_id == old_store.next_link_id,
        new_store.tags@ == old_store.tags@ + created,
        new_store.next_tag_id as int == old_store.next_tag_id + created.len(),
        new_store.next_tag_id <= i32::MAX,
        kept == old_store.post_tags@.filter(spec_keeps_other_posts(post_id)),
        new_store.post_tags@ == kept + resolved.map_values(spec_assoc_of(post_id)),
        forall|k: int|
            0 <= k < created.len() ==> (#[trigger] created[k]).id == old_store.next_tag_id + k,
        forall|k: int|
            0 <= k < created.len() ==> !spec_tag_name_taken(
                old_store.tags@,
                (#[trigger] created[k]).name@,
            ) && !spec_tag_slug_taken(old_store.tags@, created[k].slug@),
        forall|k: int, l: int|
            0 <= k < l < created.len() ==> (#[trigger] created[k]).name@
                != (#[trigger] created[l]).name@ && created[k].slug@ != created[l].slug@,
        forall|i: int, j: int|
            0 <= i < j < resolved.len() ==> (#[trigger] resolved[i]).id
                != (#[trigger] resolved[j]).id,
        forall|i: int|
            0 <= i < resolved.len() ==> old_store.tags@.contains(#[trigger] resolved[i])
                || created.contains(resolved[i]),
    ensures
        new_store.wf(),
{
    let tags0 = old_store.tags@;
    let newtags = new_store.tags@;
    let newassocs = new_store.post_tags@;
    let mapped = resolved.map_values(spec_assoc_of(post_id));
    assert(spec_tag_ids_ok(newtags, new_store.next_tag_id as int)) by {
        assert forall|i: int, j: int|
            0 <= i < j < newtags.len() implies #[trigger] newtags[i].id
            != #[trigger] newtags[j].id by {
            if i < tags0.len() && j >= tags0.len() {
                assert(newtags[i].id < old_store.next_tag_id);
                assert(newtags[j].id == created[j - tags0.len()].id);
            }
        }
    }
    assert(spec_tag_names_distinct(newtags)) by {
        assert forall|i: int, j: int|
            0 <= i < j < newtags.len() implies #[trigger] newtags[i].name@
            != #[trigger] newtags[j].name@ by {
            if i < tags0.len() && j >= tags0.len() {
                assert(!spec_tag_name_taken(tags0, created[j - tags0.len()].name@));
                assert(newtags[i].name@ == tags0[i].name@);
            }
        }
    }
    assert(spec_tag_slugs_distinct(newtags)) by {
        assert forall|i: int, j: int|
            0 <= i < j < newtags.len() implies #[trigger] newtags[i].slug@
            != #[trigger] newtags[j].slug@ by {
            if i < tags0.len() && j >= tags0.len() {
                assert(!spec_tag_slug_taken(tags0, created[j - tags0.len()].slug@));
                assert(newtags[i].slug@ == tags0[i].slug@);
            }
        }
    }
    lemma_filter_members(old_store.post_tags@, spec_keeps_other_posts(post_id));
    lemma_filter_distinct(old_store.post_tags@, spec_keeps_other_posts(post_id));
    assert forall|i: int|
        0 <= i < kept.len() implies old_store.post_tags@.contains(#[trigger] kept[i])
        && (#[trigger] kept[i]).post_id != post_id by {
        assert(kept.contains(kept[i]));
        old_store.post_tags@.lemma_filter_pred(spec_keeps_other_posts(post_id), i);
    }
    assert forall|i: int, j: int|
        0 <= i < j < newassocs.len() implies #[trigger] newassocs[i]
        != #[trigger] newassocs[j] by {
        if i < kept.len() && j >= kept.len() {
            assert(newassocs[i].post_id != post_id);
            assert(newassocs[j] == mapped[j - kept.len()]);
            assert(newassocs[j].post_id == post_id);
        } else if i >= kept.len() {
            assert(newassocs[i] == mapped[i - kept.len()]);
            assert(newassocs[j] == mapped[j - kept.len()]);
            assert(resolved[i - kept.len()].id != resolved[j - kept.len()].id);
        }
    }
    assert forall|i: int|
        0 <= i < newassocs.len() implies spec_post_exists(
        new_store.posts@,
        (#[trigger] newassocs[i]).post_id,
    ) && spec_tag_exists(newtags, newassocs[i].tag_id) by {
        if i < kept.len() {
            let x = kept[i];
            let j = choose|j: int|
                0 <= j < old_store.post_tags@.len() && old_store.post_tags@[j] == x;
            assert(spec_tag_exists(tags0, x.tag_id));
            let k = choose|k: int| 0 <= k < tags0.len() && (#[trigger] tags0[k].id) == x.tag_id;
            assert(newtags[k].id == x.tag_id);
        } else {
            let t = resolved[i - kept.len()];
            assert(newassocs[i] == mapped[i - kept.len()]);
            assert(newassocs[i].tag_id == t.id);
            assert(newassocs[i].post_id == post_id);
            if tags0.contains(t) {
                let k = choose|k: int| 0 <= k < tags0.len() && tags0[k] == t;
                assert(newtags[k].id == t.id);
            } else {
                let k = choose|k: int| 0 <= k < created.len() && created[k] == t;
                assert(newtags[tags0.len() + k].id == t.id);
            }
        }
    }
}

/// Two distinct members of a table with pairwise-distinct identifiers
/// carry distinct identifiers.
proof fn lemma_tag_member_ids(tags: Seq<TagRecord>, t1: TagRecord, t2: TagRecord)
    requires
        forall|i: int, j: int|
            0 <= i < j < tags.len() ==> #[trigger] tags[i].id != #[trigger] tags[j].id,
        tags.contains(t1),
        tags.contains(t2),
        t1 != t2,
    ensures
        t1.id != t2.id,
{
    let i = choose|i: int| 0 <= i < tags.len() && tags[i] == t1;
    let j = choose|j: int| 0 <= j < tags.len() && tags[j] == t2;
    assert(i != j);
}

/// Whether any tag in the list already uses `slug`.
fn tag_list_slug_taken(tags: &Vec<TagRecord>, slug: &str) -> (r: bool)
    ensures
        r == spec_tag_slug_taken(tags@, slug@),
{
    let mut i: usize = 0;
    while i < tags.len()
        invariant
            i <= tags@.len(),
            forall|j: int| 0 <= j < i ==> (#[trigger] tags@[j].slug@) != slug@,
        decreases tags@.len() - i,
    {
        if str_eq(tags[i].slug.as_str(), slug) {
            return true;
        }
        i = i + 1;
    }
    false
}

impl BlogStore {
    /// The index of the first tag named `name`, with the search result
    /// tied to the table-order specification.
    fn find_tag_index(&self, name: &str) -> (r: Option<usize>)
        ensures
            match r {
                Some(i) => i < self.tags@.len() && self.tags@[i as int].name@ == name@
                    && spec_find_tag_by_name(self.tags@, name@) == Some(self.tags@[i as int]),
                None => spec_find_tag_by_name(self.tags@, name@) is None,
            },
    {
        proof {
            assert(self.tags@.skip(0) =~= self.tags@);
        }
        let mut i: usize = 0;
        while i < self.tags.len()
            invariant
                i <= self.tags@.len(),
                forall|j: int| 0 <= j < i ==> (#[trigger] self.tags@[j].name@) != name@,
                spec_find_tag_by_name(self.tags@, name@) == spec_find_tag_by_name(
                    self.tags@.skip(i as int),
                    name@,
                ),
            decreases self.tags@.len() - i,
        {
            proof {
                assert(self.tags@.skip(i as int)[0] == self.tags@[i as int]);
                assert(self.tags@.skip(i as int).drop_first() =~= self.tags@.skip(i + 1 as int));
            }
            if str_eq(self.tags[i].name.as_str(), name) {
                return Some(i);
            }
            i = i + 1;
        }
        proof {
            assert(self.tags@.skip(self.tags@.len() as int) =~= Seq::<TagRecord>::empty());
        }
        None
    }

    /// Whether any tag in the table already uses `slug`.
    fn tag_slug_index(&self, slug: &str) -> (r: bool)
        ensures
            r == spec_tag_slug_taken(self.tags@, slug@),
    {
        tag_list_slug_taken(&self.tags, slug)
    }

    /// Looks a tag up by exact name and creates it when absent, deriving
    /// its slug from the name.
    ///
    /// A tag slug gets no uniqueness suffix: when the derived slug is
    /// already owned by another tag, the write surfaces the store's
    /// unique-constraint violation as a conflict and changes nothing.
    pub fn find_or_create_tag(&mut self, name: &str, now: u64) -> (r: Result<TagRecord, AppError>)
        requires
            old(self).wf(),
            old(self).next_tag_id < i32::MAX,
        ensures
            final(self).wf(),
            match r {
                Ok(t) => {
                    match spec_find_tag_by_name(old(self).tags@, name@) {
                        Some(t0) => t == t0 && final(self).unchanged(*old(self)),
                        None => {
                            &&& t.id == old(self).next_tag_id
                            &&& t.name@ == name@
                            &&& t.slug@ == spec_slugify(name@)
                            &&& t.created_at == now
                            &&& final(self).tags@ == old(self).tags@.push(t)
                            &&& final(self).next_tag_id == old(self).next_tag_id + 1
                            &&& final(self).same_posts(*old(self))
                            &&& final(self).same_assocs(*old(self))
                            &&& final(self).same_comments(*old(self))
                            &&& final(self).same_links(*old(self))
                        },
                    }
                },
                Err(e) => {
                    &&& e is Conflict
                    &&& final(self).unchanged(*old(self))
                    &&& spec_find_tag_by_name(old(self).tags@, name@) is None
                    &&& spec_tag_slug_taken(old(self).tags@, spec_slugify(name@))
                },
            },
            r is Err <==> (spec_find_tag_by_name(old(self).tags@, name@) is None
                && spec_tag_slug_taken(old(self).tags@, spec_slugify(name@))),
    {
        match self.find_tag_index(name) {
            Some(i) => {
                let t = self.tags[i].clone();
                Ok(t)
            },
            None => {
                let slug = slugify(name);
                if self.tag_slug_index(slug.as_str()) {
                    return Err(AppError::Conflict(String::from_str("tag slug already in use")));
                }
                let t = TagRecord {
                    id: self.next_tag_id,
                    name: name.to_owned(),
                    slug,
                    created_at: now,
                };
                let out = t.clone();
                self.tags.push(t);
                self.next_tag_id = self.next_tag_id + 1;
                proof {
                    lemma_find_tag_by_name(old(self).tags@, name@);
                    assert(!spec_tag_name_taken(old(self).tags@, name@));
                    assert forall|i: int|
                        0 <= i < self.post_tags@.len() implies spec_tag_exists(
                        self.tags@,
                        (#[trigger] self.post_tags@[i]).tag_id,
                    ) by {
                        assert(spec_tag_exists(old(self).tags@, self.post_tags@[i].tag_id));
                        let j = choose|j: int|
                            0 <= j < old(self).tags@.len() && (#[trigger] old(self).tags@[j].id)
                                == self.post_tags@[i].tag_id;
                        assert(self.tags@[j].id == self.post_tags@[i].tag_id);
                    }
                }
                Ok(out)
            },
        }
    }

    /// Replaces the whole tag set of `post_id`: deletes every existing
    /// association, resolves each desired name to its canonical tag
    /// (creating missing ones), and links the post to each in order.
    ///
    /// The caller supplies names already trimmed, non-empty and
    /// de-duplicated. On a tag-slug collision nothing changes and the
    /// conflict is surfaced; otherwise the post's associations afterwards
    /// are exactly the resolved tags, other posts' associations are kept,
    /// and no tag is ever deleted.
    pub fn handle_post_tags(
        &mut self,
        post_id: i32,
        names: &Vec<String>,
        now: u64,
    ) -> (r: Result<Vec<TagRecord>, AppError>)
        requires
            old(self).wf(),
            spec_post_exists(old(self).posts@, post_id),
            forall|i: int, j: int| 0 <= i < j < names@.len() ==> names@[i]@ != names@[j]@,
            old(self).next_tag_id + names@.len() <= i32::MAX,
        ensures
            final(self).wf(),
            final(self).same_posts(*old(self)),
            final(self).same_comments(*old(self)),
            final(self).same_links(*old(self)),
            r is Err <==> spec_reconcile_conflict(
                spec_tag_keys(old(self).tags@),
                str_views(names@),
            ),
            match r {
                Ok(ts) => {
                    &&& ts@.len() == names@.len()
                    &&& forall|i: int|
                        0 <= i < names@.len() ==> (#[trigger] ts@[i]).name@ == names@[i]@
                    &&& forall|i: int|
                        0 <= i < names@.len() ==> match spec_find_tag_by_name(
                            old(self).tags@,
                            names@[i]@,
                        ) {
                            Some(t0) => (#[trigger] ts@[i]) == t0,
                            None => ts@[i].id >= old(self).next_tag_id && ts@[i].slug@
                                == spec_slugify(names@[i]@) && ts@[i].created_at == now,
                        }
                    &&& old(self).tags@.is_prefix_of(final(self).tags@)
                    &&& forall|j: int|
                        old(self).tags@.len() <= j < final(self).tags@.len() ==> ts@.contains(
                            #[trigger] final(self).tags@[j],
                        )
                    &&& final(self).post_tags@ == old(self).post_tags@.filter(
                        spec_keeps_other_posts(post_id),
                    ) + ts@.map_values(spec_assoc_of(post_id))
                },
                Err(e) => e is Conflict && final(self).unchanged(*old(self)),
            },
    {
        let ghost tags0 = self.tags@;
        let ghost keys0 = spec_tag_keys(tags0);
        let ghost all_names = str_views(names@);
        let ghost next0 = self.next_tag_id as int;
        let mut resolved: Vec<TagRecord> = Vec::new();
        let mut created: Vec<TagRecord> = Vec::new();
        let mut idx: usize = 0;
        proof {
            assert(all_names.skip(0) =~= all_names);
            assert(keys0 + spec_tag_keys(created@) =~= keys0);
        }
        while idx < names.len()
            invariant
                *self == *old(self),
                self.wf(),
                tags0 == self.tags@,
                keys0 == spec_tag_keys(tags0),
                all_names == str_views(names@),
                next0 == self.next_tag_id as int,
                next0 + all_names.len() <= i32::MAX,
                forall|i: int, j: int| 0 <= i < j < all_names.len() ==> all_names[i] != all_names[j],
                idx <= all_names.len(),
                resolved@.len() == idx,
                created@.len() <= idx,
                forall|i: int| 0 <= i < idx ==> (#[trigger] resolved@[i]).name@ == all_names[i],
                forall|i: int|
                    0 <= i < idx ==> match spec_find_tag_by_name(tags0, all_names[i]) {
                        Some(t0) => (#[trigger] resolved@[i]) == t0 && tags0.contains(resolved@[i])
                            && resolved@[i].id < next0,
                        None => next0 <= (#[trigger] resolved@[i]).id < next0 + created@.len()
                            && resolved@[i].slug@ == spec_slugify(all_names[i])
                            && resolved@[i].created_at == now,
                    },
                forall|i: int, j: int|
                    0 <= i < j < idx ==> (#[trigger] resolved@[i]).id != (#[trigger] resolved@[j]).id,
                forall|i: int|
                    0 <= i < idx ==> tags0.contains(#[trigger] resolved@[i]) || created@.contains(
                        resolved@[i],
                    ),
                forall|k: int| 0 <= k < created@.len() ==> (#[trigger] created@[k]).id == next0 + k,
                forall|k: int|
                    0 <= k < created@.len() ==> exists|i: int|
                        0 <= i < idx && (#[trigger] created@[k]) == resolved@[i],
                forall|k: int|
                    0 <= k < created@.len() ==> !spec_tag_name_taken(
                        tags0,
                        (#[trigger] created@[k]).name@,
                    ) && !spec_tag_slug_taken(tags0, created@[k].slug@),
                forall|k: int|
                    0 <= k < created@.len() ==> (#[trigger] created@[k]).slug@ == spec_slugify(
                        created@[k].name@,
                    ) && created@[k].created_at == now,
                forall|k: int, l: int|
                    0 <= k < l < created@.len() ==> (#[trigger] created@[k]).name@
                        != (#[trigger] created@[l]).name@ && created@[k].slug@ != created@[l].slug@,
                spec_reconcile_conflict(keys0, all_names) == spec_reconcile_conflict(
                    keys0 + spec_tag_keys(created@),
                    all_names.skip(idx as int),
                ),
            decreases all_names.len() - idx,
        {
            let ghost name = all_names[idx as int];
            let ghost combined = keys0 + spec_tag_keys(created@);
            proof {
                assert(all_names.skip(idx as int)[0] == name);
                assert(all_names.skip(idx as int).drop_first() =~= all_names.skip(idx + 1 as int));
                assert(names@[idx as int]@ == name);
                // a created key can never carry the current name
                assert forall|k: int|
                    0 <= k < created@.len() implies (#[trigger] created@[k]).name@ != name by {
                    let i = choose|i: int|
                        0 <= i < idx && (#[trigger] created@[k]) == resolved@[i];
                    assert(resolved@[i].name@ == all_names[i]);
                }
                assert(spec_key_name_taken(combined, name) == spec_tag_name_taken(tags0, name))
                    by {
                    if spec_key_name_taken(combined, name) {
                        let i = choose|i: int|
                            0 <= i < combined.len() && (#[trigger] combined[i]).0 == name;
                        if i < keys0.len() {
                            assert(tags0[i].name@ == name);
                        } else {
                            assert(created@[i - keys0.len()].name@ == name);
                        }
                    }
                    if spec_tag_name_taken(tags0, name) {
                        let i = choose|i: int|
                            0 <= i < tags0.len() && (#[trigger] tags0[i].name@) == name;
                        assert(combined[i].0 == name);
                    }
                }
                lemma_find_tag_by_name(tags0, name);
            }
            match self.find_tag_index(names[idx].as_str()) {
                Some(ti) => {
                    let t = self.tags[ti].clone();
                    proof {
                        assert(tags0[ti as int] == t);
                        assert(tags0.contains(tags0[ti as int]));
                        assert forall|i: int|
                            0 <= i < idx implies (#[trigger] resolved@[i]).id != t.id by {
                            if resolved@[i].id >= next0 {
                            } else {
                                assert(tags0.contains(resolved@[i]));
                                assert(resolved@[i].name@ == all_names[i]);
                                assert(resolved@[i] != t);
                                lemma_tag_member_ids(tags0, resolved@[i], t);
                            }
                        }
                    }
                    let ghost old_resolved = resolved@;
                    resolved.push(t);
                    proof {
                        assert(resolved@[idx as int] == t);
                        assert(tags0.contains(resolved@[idx as int]));
                        assert forall|k: int| 0 <= k < created@.len() implies exists|i: int|
                            0 <= i < idx + 1 && (#[trigger] created@[k]) == resolved@[i] by {
                            let i = choose|i: int|
                                0 <= i < idx && (#[trigger] created@[k]) == old_resolved[i];
                            assert(resolved@[i] == old_resolved[i]);
                        }
                    }
                },
                None => {
                    let slug = slugify(names[idx].as_str());
                    let in_table = self.tag_slug_index(slug.as_str());
                    let in_created = tag_list_slug_taken(&created, slug.as_str());
                    proof {
                        assert(spec_key_slug_taken(combined, slug@) == (in_table || in_created))
                            by {
                            if spec_key_slug_taken(combined, slug@) {
                                let i = choose|i: int|
                                    0 <= i < combined.len() && (#[trigger] combined[i]).1 == slug@;
                                if i < keys0.len() {
                                    assert(tags0[i].slug@ == slug@);
                                } else {
                                    assert(created@[i - keys0.len()].slug@ == slug@);
                                }
                            }
                            if in_table {
                                let i = choose|i: int|
                                    0 <= i < tags0.len() && (#[trigger] tags0[i].slug@) == slug@;
                                assert(combined[i].1 == slug@);
                            }
                            if in_created {
                                let i = choose|i: int|
                                    0 <= i < created@.len() && (#[trigger] created@[i].slug@)
                                        == slug@;
                                assert(combined[keys0.len() + i].1 == slug@);
                            }
                        }
                    }
                    if in_table || in_created {
                        proof {
                            assert(spec_reconcile_conflict(combined, all_names.skip(idx as int)));
                        }
                        return Err(
                            AppError::Conflict(String::from_str("tag slug already in use")),
                        );
                    }
                    let id_offset = created.len();
                    let t = TagRecord {
                        id: self.next_tag_id + (id_offset as i32),
                        name: names[idx].clone(),
                        slug,
                        created_at: now,
                    };
                    proof {
                        assert(spec_reconcile_conflict(
                            combined.push((name, spec_slugify(name))),
                            all_names.skip(idx + 1 as int),
                        ) == spec_reconcile_conflict(keys0, all_names));
                        assert(combined.push((name, spec_slugify(name))) =~= keys0
                            + spec_tag_keys(created@.push(t)));
                    }
                    let ghost old_created = created@;
                    let ghost old_resolved = resolved@;
                    created.push(t.clone());
                    resolved.push(t);
                    proof {
                        assert(created@[created@.len() - 1] == resolved@[resolved@.len() - 1]);
                        assert(created@.contains(resolved@[resolved@.len() - 1]));
                        assert forall|k: int| 0 <= k < created@.len() implies exists|i: int|
                            0 <= i < idx + 1 && (#[trigger] created@[k]) == resolved@[i] by {
                            if k < old_created.len() {
                                assert(created@[k] == old_created[k]);
                                let i = choose|i: int|
                                    0 <= i < idx && (#[trigger] old_created[k]) == old_resolved[i];
                                assert(created@[k] == resolved@[i]);
                            } else {
                                assert(created@[k] == resolved@[idx as int]);
                            }
                        }
                        assert forall|i: int|
                            0 <= i < idx + 1 implies tags0.contains(#[trigger] resolved@[i])
                                || created@.contains(resolved@[i]) by {
                            if i < idx {
                                assert(resolved@[i] == old_resolved[i]);
                                if old_created.contains(old_resolved[i]) {
                                    let k = choose|k: int|
                                        0 <= k < old_created.len() && old_created[k]
                                            == old_resolved[i];
                                    assert(created@[k] == resolved@[i]);
                                    assert(created@.contains(resolved@[i]));
                                }
                            } else {
                                assert(created@[created@.len() - 1] == resolved@[i]);
                                assert(created@.contains(resolved@[i]));
                            }
                        }
                    }
                },
            }
            idx = idx + 1;
        }
        proof {
            assert(all_names.skip(all_names.len() as int) =~= Seq::<Seq<char>>::empty());
            assert(!spec_reconcile_conflict(keys0, all_names));
        }
        // apply: drop the post's associations, append the created tags,
        // and link the post to each resolved tag in order
        let mut kept: Vec<PostTagRecord> = Vec::new();
        let mut i: usize = 0;
        proof {
            reveal(Seq::filter);
        }
        while i < self.post_tags.len()
            invariant
                i <= self.post_tags@.len(),
                kept@ == self.post_tags@.take(i as int).filter(spec_keeps_other_posts(post_id)),
            decreases self.post_tags@.len() - i,
        {
            proof {
                reveal(Seq::filter);
                assert(self.post_tags@.take(i + 1 as int).drop_last() =~= self.post_tags@.take(
                    i as int,
                ));
                assert(self.post_tags@.take(i + 1 as int).last() == self.post_tags@[i as int]);
            }
            let pt = self.post_tags[i];
            if pt.post_id != post_id {
                kept.push(pt);
            }
            i = i + 1;
        }
        proof {
            assert(self.post_tags@.take(self.post_tags@.len() as int) =~= self.post_tags@);
        }
        let ghost kept0 = kept@;
        self.post_tags = kept;
        let mut k: usize = 0;
        while k < created.len()
            invariant
                k <= created@.len(),
                self.tags@ == tags0 + created@.take(k as int),
                self.posts@ == old(self).posts@,
                self.post_tags@ == kept0,
                self.comments@ == old(self).comments@,
                self.links@ == old(self).links@,
                self.next_post_id == old(self).next_post_id,
                self.next_tag_id == old(self).next_tag_id,
                self.next_comment_id == old(self).next_comment_id,
                self.next_link_id == old(self).next_link_id,
            decreases created@.len() - k,
        {
            let t = created[k].clone();
            self.tags.push(t);
            proof {
                assert(self.tags@ =~= tags0 + created@.take(k + 1 as int));
            }
            k = k + 1;
        }
        proof {
            assert(created@.take(created@.len() as int) =~= created@);
        }
        let created_count = created.len();
        self.next_tag_id = self.next_tag_id + (created_count as i32);
        let mut a: usize = 0;
        while a < resolved.len()
            invariant
                a <= resolved@.len(),
                self.post_tags@ == kept0 + resolved@.take(a as int).map_values(
                    spec_assoc_of(post_id),
                ),
                self.posts@ == old(self).posts@,
                self.tags@ == tags0 + created@,
                self.comments@ == old(self).comments@,
                self.links@ == old(self).links@,
                self.next_post_id == old(self).next_post_id,
                self.next_tag_id as int == next0 + created@.len(),
                self.next_comment_id == old(self).next_comment_id,
                self.next_link_id == old(self).next_link_id,
            decreases resolved@.len() - a,
        {
            let tag_id = resolved[a].id;
            self.post_tags.push(PostTagRecord { post_id, tag_id });
            proof {
                assert(self.post_tags@ =~= kept0 + resolved@.take(a + 1 as int).map_values(
                    spec_assoc_of(post_id),
                ));
            }
            a = a + 1;
        }
        proof {
            assert(resolved@.take(resolved@.len() as int) =~= resolved@);
            lemma_reconcile_wf(*old(self), *self, post_id, resolved@, created@, kept0, now);
            assert(tags0.is_prefix_of(self.tags@)) by {
                assert(self.tags@.subrange(0, tags0.len() as int) =~= tags0);
            }
            assert forall|j: int|
                tags0.len() <= j < self.tags@.len() implies resolved@.contains(
                #[trigger] self.tags@[j],
            ) by {
                assert(self.tags@[j] == created@[j - tags0.len()]);
                let i = choose|i: int|
                    0 <= i < idx && (#[trigger] created@[j - tags0.len()]) == resolved@[i];
                assert(resolved@[i] == self.tags@[j]);
            }
            assert(all_names == str_views(names@));
            assert(resolved@.len() == names@.len());
            assert forall|i: int|
                0 <= i < names@.len() implies (#[trigger] resolved@[i]).name@ == names@[i]@ by {
                assert(all_names[i] == names@[i]@);
            }
            assert forall|i: int| 0 <= i < names@.len() implies match spec_find_tag_by_name(
                old(self).tags@,
                names@[i]@,
            ) {
                Some(t0) => (#[trigger] resolved@[i]) == t0,
                None => resolved@[i].id >= old(self).next_tag_id && resolved@[i].slug@
                    == spec_slugify(names@[i]@) && resolved@[i].created_at == now,
            } by {
                assert(all_names[i] == names@[i]@);
                assert(next0 + created@.len() <= i32::MAX);
            }
            assert(self.post_tags@ == old(self).post_tags@.filter(
                spec_keeps_other_posts(post_id),
            ) + resolved@.map_values(spec_assoc_of(post_id)));
            assert(!spec_reconcile_conflict(
                spec_tag_keys(old(self).tags@),
                str_views(names@),
            ));
        }
        Ok(resolved)
    }
}

} // verus!
