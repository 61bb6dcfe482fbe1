//! The write coordinator for posts: creation, update and deletion,
//! each an atomic step against the store.

use vstd::prelude::*;
use crate::error::AppError;
use crate::markdown::{extract_summary, spec_extract_summary};
use crate::records::{
    CommentRecord, CreatePostDto, PostRecord, PostTagRecord, PostWithTags, TagRecord,
    UpdatePostDto,
};
use crate::slug::{
    ensure_unique_slug, slug_list_contains, slugify, spec_resolves, spec_slugify, str_views,
};
use crate::store::{
    lemma_filter_distinct, lemma_filter_members, spec_assoc_of, spec_find_tag_by_name,
    spec_keeps_other_posts, spec_post_exists, spec_reconcile_conflict, spec_tag_exists,
    spec_tag_keys, BlogStore,
};
use crate::text::{spec_trim, str_eq, trim_str};

verus! {

/// The slug column of the post table.
pub open spec fn spec_post_slug_views(posts: Seq<PostRecord>) -> Seq<Seq<char>> {
    posts.map_values(|p: PostRecord| p.slug@)
}

/// Desired tag names as the coordinator passes them on: each trimmed,
/// blanks dropped, and later duplicates of an earlier name dropped.
pub open spec fn spec_normalize_names(names: Seq<Seq<char>>) -> Seq<Seq<char>>
    decreases names.len(),
{
    if names.len() == 0 {
        Seq::empty()
    } else {
        let prefix = spec_normalize_names(names.drop_last());
        let t = spec_trim(names.last());
        if t.len() == 0 || prefix.contains(t) {
            prefix
        } else {
            prefix.push(t)
        }
    }
}

/// Normalization never grows the list and leaves its entries pairwise
/// distinct.
pub proof fn lemma_normalize_names(names: Seq<Seq<char>>)
    ensures
        spec_normalize_names(names).len() <= names.len(),
        forall|i: int, j: int|
            0 <= i < j < spec_normalize_names(names).len() ==> spec_normalize_names(names)[i]
                != spec_normalize_names(names)[j],
    decreases names.len(),
{
    if names.len() > 0 {
        lemma_normalize_names(names.drop_last());
        let prefix = spec_normalize_names(names.drop_last());
        let t = spec_trim(names.last());
        if t.len() != 0 && !prefix.contains(t) {
            assert forall|i: int, j: int|
                0 <= i < j < prefix.push(t).len() implies prefix.push(t)[i] != prefix.push(
                t,
            )[j] by {
                if j == prefix.len() {
                    assert(!prefix.contains(prefix[i]) ==> false);
                    assert(prefix.contains(prefix[i]));
                }
            }
        }
    }
}

/// Filtering with a predicate every element satisfies is the identity.
proof fn lemma_filter_all<A>(s: Seq<A>, p: spec_fn(A) -> bool)
    requires
        forall|i: int| 0 <= i < s.len() ==> p(#[trigger] s[i]),
    ensures
        s.filter(p) == s,
    decreases s.len(),
{
    reveal(Seq::filter);
    if s.len() > 0 {
        assert forall|i: int| 0 <= i < s.drop_last().len() implies p(
            #[trigger] s.drop_last()[i],
        ) by {
            assert(s.drop_last()[i] == s[i]);
        }
        lemma_filter_all(s.drop_last(), p);
        assert(s.filter(p) == s.drop_last().push(s.last()));
        assert(s.drop_last().push(s.last()) =~= s);
    }
}

/// Trims the desired names, drops the blanks and keeps the first
/// occurrence of each distinct name.
fn normalize_tag_names(names: &Vec<String>) -> (r: Vec<String>)
    ensures
        str_views(r@) == spec_normalize_names(str_views(names@)),
        r@.len() <= names@.len(),
        forall|i: int, j: int| 0 <= i < j < r@.len() ==> r@[i]@ != r@[j]@,
{
    let ghost all = str_views(names@);
    let mut r: Vec<String> = Vec::new();
    let mut i: usize = 0;
    proof {
        assert(all.take(0) =~= Seq::<Seq<char>>::empty());
    }
    while i < names.len()
        invariant
            i <= names@.len(),
            all == str_views(names@),
            str_views(r@) == spec_normalize_names(all.take(i as int)),
            r@.len() <= i,
        decreases names@.len() - i,
    {
        proof {
            assert(all.take(i + 1 as int).drop_last() =~= all.take(i as int));
            assert(all.take(i + 1 as int).last() == all[i as int]);
            assert(all[i as int] == names@[i as int]@);
        }
        let t = trim_str(names[i].as_str());
        let mut dup = false;
        let mut j: usize = 0;
        while j < r.len()
            invariant
                j <= r@.len(),
                dup == (exists|k: int| 0 <= k < j && (#[trigger] r@[k]@) == t@),
            decreases r@.len() - j,
        {
            if r[j] == t {
                dup = true;
            }
            j = j + 1;
        }
        proof {
            assert(dup == str_views(r@).contains(t@)) by {
                if dup {
                    let k = choose|k: int| 0 <= k < r@.len() && (#[trigger] r@[k]@) == t@;
                    assert(str_views(r@)[k] == t@);
                }
                if str_views(r@).contains(t@) {
                    let k = choose|k: int|
                        0 <= k < str_views(r@).len() && (#[trigger] str_views(r@)[k]) == t@;
                    assert(r@[k]@ == t@);
                }
            }
        }
        if !t.as_str().is_empty() && !dup {
            r.push(t);
            proof {
                assert(str_views(r@) =~= spec_normalize_names(all.take(i + 1 as int)));
            }
        }
        i = i + 1;
    }
    proof {
        assert(all.take(all.len() as int) =~= all);
        lemma_normalize_names(all);
        assert forall|i: int, j: int| 0 <= i < j < r@.len() implies r@[i]@ != r@[j]@ by {
            assert(str_views(r@)[i] == r@[i]@);
            assert(str_views(r@)[j] == r@[j]@);
        }
    }
    r
}

/// The index of the post with identifier `id`, or a negative value when
/// no row carries it.
pub open spec fn spec_post_index(posts: Seq<PostRecord>, id: i32) -> int
    decreases posts.len(),
{
    if posts.len() == 0 {
        -1
    } else if posts[0].id == id {
        0
    } else {
        let r = spec_post_index(posts.drop_first(), id);
        if r < 0 {
            -1
        } else {
            r + 1
        }
    }
}

/// The index function finds a row exactly when one exists, and points at
/// a row carrying the identifier.
pub proof fn lemma_post_index(posts: Seq<PostRecord>, id: i32)
    ensures
        spec_post_index(posts, id) >= 0 <==> spec_post_exists(posts, id),
        spec_post_index(posts, id) >= 0 ==> spec_post_index(posts, id) < posts.len() && posts[
            spec_post_index(posts, id)
        ].id == id,
    decreases posts.len(),
{
    if posts.len() > 0 && posts[0].id != id {
        lemma_post_index(posts.drop_first(), id);
        if spec_post_exists(posts, id) {
            let i = choose|i: int| 0 <= i < posts.len() && (#[trigger] posts[i].id) == id;
            assert(posts.drop_first()[i - 1].id == id);
        }
        if spec_post_exists(posts.drop_first(), id) {
            let i = choose|i: int|
                0 <= i < posts.drop_first().len() && (#[trigger] posts.drop_first()[i].id) == id;
            assert(posts[i + 1].id == id);
        }
    }
}

/// The tag names an update will hand to reconciliation: the normalized
/// desired list, or nothing when the patch leaves tags alone.
pub open spec fn spec_update_names(dto: UpdatePostDto) -> Seq<Seq<char>> {
    match dto.tags {
        Some(v) => spec_normalize_names(str_views(v@)),
        None => Seq::empty(),
    }
}

/// Overwriting one post row with one that keeps its identifier and
/// carries a fresh or unchanged slug leaves the store well-formed.
proof fn lemma_update_post_wf(
    old_store: BlogStore,
    new_store: BlogStore,
    id: i32,
    idx: int,
    title_changed: bool,
)
    requires
        old_store.wf(),
        0 <= idx < old_store.posts@.len(),
        old_store.posts@[idx].id == id,
        new_store.posts@ == old_store.posts@.update(idx, new_store.posts@[idx]),
        new_store.posts@.len() == old_store.posts@.len(),
        new_store.posts@[idx].id == id,
        title_changed ==> !slug_list_contains(
            spec_post_slug_views(old_store.posts@),
            new_store.posts@[idx].slug@,
        ),
        !title_changed ==> new_store.posts@[idx].slug@ == old_store.posts@[idx].slug@,
        new_store.tags@ == old_store.tags@,
        new_store.post_tags@ == old_store.post_tags@,
        new_store.comments@ == old_store.comments@,
        new_store.links@ == old_store.links@,
        new_store.next_post_id == old_store.next_post_id,
        new_store.next_tag_id == old_store.next_tag_id,
        new_store.next_comment_id == old_store.next_comment_id,
        new_store.next_link_id == old_store.next_link_id,
    ensures
        new_store.wf(),
{
    let posts0 = old_store.posts@;
    let posts1 = new_store.posts@;
    assert forall|i: int| 0 <= i < posts1.len() implies (#[trigger] posts1[i].id)
        == posts0[i].id by {
        if i != idx {
            assert(posts1[i] == posts0[i]);
        }
    }
    assert forall|i: int, j: int|
        0 <= i < j < posts1.len() implies #[trigger] posts1[i].slug@
        != #[trigger] posts1[j].slug@ by {
        if i != idx && j != idx {
            assert(posts1[i] == posts0[i]);
            assert(posts1[j] == posts0[j]);
        } else {
            let other: int = if i == idx {
                j
            } else {
                i
            };
            assert(posts1[other] == posts0[other]);
            if title_changed {
                assert(spec_post_slug_views(posts0)[other] == posts0[other].slug@);
                assert(!slug_list_contains(spec_post_slug_views(posts0), posts1[idx].slug@));
                if posts1[idx].slug@ == posts0[other].slug@ {
                    assert(slug_list_contains(spec_post_slug_views(posts0), posts1[idx].slug@));
                }
            }
        }
    }
    assert forall|i: int|
        0 <= i < new_store.post_tags@.len() implies spec_post_exists(
        posts1,
        (#[trigger] new_store.post_tags@[i]).post_id,
    ) by {
        assert(spec_post_exists(posts0, old_store.post_tags@[i].post_id));
        let k = choose|k: int|
            0 <= k < posts0.len() && (#[trigger] posts0[k].id)
                == new_store.post_tags@[i].post_id;
        assert(posts1[k].id == new_store.post_tags@[i].post_id);
    }
    assert forall|i: int|
        0 <= i < new_store.comments@.len() implies spec_post_exists(
        posts1,
        (#[trigger] new_store.comments@[i]).post_id,
    ) by {
        assert(spec_post_exists(posts0, old_store.comments@[i].post_id));
        let k = choose|k: int|
            0 <= k < posts0.len() && (#[trigger] posts0[k].id) == new_store.comments@[i].post_id;
        assert(posts1[k].id == new_store.comments@[i].post_id);
    }
}

/// The comment rows a post deletion keeps: those of every other post.
pub open spec fn spec_keeps_other_comments(post_id: i32) -> spec_fn(CommentRecord) -> bool {
    |c: CommentRecord| c.post_id != post_id
}

/// The index function points at the first matching row.
proof fn lemma_post_index_prefix(posts: Seq<PostRecord>, id: i32, i: int)
    requires
        0 <= i < posts.len(),
        forall|j: int| 0 <= j < i ==> (#[trigger] posts[j].id) != id,
        posts[i].id == id,
    ensures
        spec_post_index(posts, id) == i,
    decreases i,
{
    if i > 0 {
        assert(posts[0].id != id);
        assert forall|j: int| 0 <= j < i - 1 implies (#[trigger] posts.drop_first()[j].id)
            != id by {
            assert(posts.drop_first()[j] == posts[j + 1]);
        }
        assert(posts.drop_first()[i - 1] == posts[i]);
        lemma_post_index_prefix(posts.drop_first(), id, i - 1);
    }
}

/// Removing a post and cascading its associations and comments leaves
/// the store well-formed.
proof fn lemma_delete_post_wf(old_store: BlogStore, new_store: BlogStore, id: i32, idx: int)
    requires
        old_store.wf(),
        0 <= idx < old_store.posts@.len(),
        old_store.posts@[idx].id == id,
        new_store.posts@ == old_store.posts@.remove(idx),
        new_store.post_tags@ == old_store.post_tags@.filter(spec_keeps_other_posts(id)),
        new_store.comments@ == old_store.comments@.filter(spec_keeps_other_comments(id)),
        new_store.tags@ == old_store.tags@,
        new_store.links@ == old_store.links@,
        new_store.next_post_id == old_store.next_post_id,
        new_store.next_tag_id == old_store.next_tag_id,
        new_store.next_comment_id == old_store.next_comment_id,
        new_store.next_link_id == old_store.next_link_id,
    ensures
        new_store.wf(),
{
    let posts0 = old_store.posts@;
    let posts1 = new_store.posts@;
    assert forall|j: int| 0 <= j < posts1.len() implies #[trigger] posts1[j] == (if j < idx {
        posts0[j]
    } else {
        posts0[j + 1]
    }) by {}
    lemma_filter_members(old_store.post_tags@, spec_keeps_other_posts(id));
    lemma_filter_distinct(old_store.post_tags@, spec_keeps_other_posts(id));
    lemma_filter_members(old_store.comments@, spec_keeps_other_comments(id));
    assert(old_store.comments@.filter(spec_keeps_other_comments(id)).len()
        <= old_store.comments@.len()) by {
        old_store.comments@.lemma_filter_len(spec_keeps_other_comments(id));
    }
    assert(old_store.post_tags@.filter(spec_keeps_other_posts(id)).len()
        <= old_store.post_tags@.len()) by {
        old_store.post_tags@.lemma_filter_len(spec_keeps_other_posts(id));
    }
    assert forall|i: int, j: int|
        0 <= i < j < new_store.comments@.len() implies #[trigger] new_store.comments@[i].id
        != #[trigger] new_store.comments@[j].id by {
        lemma_filter_distinct_comments(old_store.comments@, spec_keeps_other_comments(id), i, j);
    }
    assert forall|i: int|
        0 <= i < new_store.comments@.len() implies 1 <= (#[trigger] new_store.comments@[i].id)
            < new_store.next_comment_id by {
        assert(new_store.comments@.contains(new_store.comments@[i]));
        let k = choose|k: int|
            0 <= k < old_store.comments@.len() && old_store.comments@[k]
                == new_store.comments@[i];
    }
    assert forall|i: int|
        0 <= i < new_store.comments@.len() implies spec_post_exists(
        posts1,
        (#[trigger] new_store.comments@[i]).post_id,
    ) by {
        assert(new_store.comments@.contains(new_store.comments@[i]));
        old_store.comments@.lemma_filter_pred(spec_keeps_other_comments(id), i);
        let k = choose|k: int|
            0 <= k < old_store.comments@.len() && old_store.comments@[k]
                == new_store.comments@[i];
        assert(spec_post_exists(posts0, old_store.comments@[k].post_id));
        let p = choose|p: int|
            0 <= p < posts0.len() && (#[trigger] posts0[p].id)
                == new_store.comments@[i].post_id;
        assert(p != idx);
        if p < idx {
            assert(posts1[p].id == new_store.comments@[i].post_id);
        } else {
            assert(posts1[p - 1].id == new_store.comments@[i].post_id);
        }
    }
    assert forall|i: int|
        0 <= i < new_store.post_tags@.len() implies spec_post_exists(
        posts1,
        (#[trigger] new_store.post_tags@[i]).post_id,
    ) && spec_tag_exists(new_store.tags@, new_store.post_tags@[i].tag_id) by {
        assert(new_store.post_tags@.contains(new_store.post_tags@[i]));
        old_store.post_tags@.lemma_filter_pred(spec_keeps_other_posts(id), i);
        let k = choose|k: int|
            0 <= k < old_store.post_tags@.len() && old_store.post_tags@[k]
                == new_store.post_tags@[i];
        assert(spec_post_exists(posts0, old_store.post_tags@[k].post_id));
        assert(spec_tag_exists(old_store.tags@, old_store.post_tags@[k].tag_id));
        let p = choose|p: int|
            0 <= p < posts0.len() && (#[trigger] posts0[p].id)
                == new_store.post_tags@[i].post_id;
        assert(p != idx);
        if p < idx {
            assert(posts1[p].id == new_store.post_tags@[i].post_id);
        } else {
            assert(posts1[p - 1].id == new_store.post_tags@[i].post_id);
        }
    }
}

/// A pair of rows surviving a comment filter came from distinct rows of
/// the original, so their identifiers differ.
proof fn lemma_filter_distinct_comments(
    s: Seq<CommentRecord>,
    p: spec_fn(CommentRecord) -> bool,
    i: int,
    j: int,
)
    requires
        forall|a: int, b: int| 0 <= a < b < s.len() ==> (#[trigger] s[a]).id != (#[trigger] s[b]).id,
        0 <= i < j < s.filter(p).len(),
    ensures
        s.filter(p)[i].id != s.filter(p)[j].id,
    decreases s.len(),
{
    reveal(Seq::filter);
    if s.len() > 0 {
        let f = s.drop_last().filter(p);
        if p(s.last()) {
            assert(s.filter(p) == f.push(s.last()));
            if j < f.len() {
                lemma_filter_distinct_comments(s.drop_last(), p, i, j);
            } else {
                assert(s.filter(p)[j] == s.last());
                lemma_filter_member_ids(s.drop_last(), p, i);
                let k = choose|k: int|
                    0 <= k < s.drop_last().len() && s.drop_last()[k] == f[i];
                assert(s[k] == f[i]);
                assert(s[s.len() - 1] == s.last());
            }
        } else {
            lemma_filter_distinct_comments(s.drop_last(), p, i, j);
        }
    }
}

/// A filtered comment row is a member of the original table.
proof fn lemma_filter_member_ids(s: Seq<CommentRecord>, p: spec_fn(CommentRecord) -> bool, i: int)
    requires
        0 <= i < s.filter(p).len(),
    ensures
        exists|k: int| 0 <= k < s.len() && (#[trigger] s[k]) == s.filter(p)[i],
    decreases s.len(),
{
    reveal(Seq::filter);
    if s.len() > 0 {
        let f = s.drop_last().filter(p);
        if p(s.last()) && i == f.len() {
            assert(s[s.len() - 1] == s.filter(p)[i]);
        } else {
            lemma_filter_member_ids(s.drop_last(), p, i);
            let k = choose|k: int|
                0 <= k < s.drop_last().len() && (#[trigger] s.drop_last()[k]) == s.drop_last().filter(p)[i];
            assert(s[k] == s.filter(p)[i]);
        }
    }
}

/// Whether the association table links `post_id` to `tag_id`.
pub open spec fn spec_has_assoc(assocs: Seq<PostTagRecord>, post_id: i32, tag_id: i32) -> bool {
    exists|i: int|
        0 <= i < assocs.len() && (#[trigger] assocs[i]).post_id == post_id && assocs[i].tag_id
            == tag_id
}

/// The predicate selecting the tags linked to `post_id`.
pub open spec fn spec_tag_of_post_pred(assocs: Seq<PostTagRecord>, post_id: i32) -> spec_fn(
    TagRecord,
) -> bool {
    |t: TagRecord| spec_has_assoc(assocs, post_id, t.id)
}

/// The tags linked to `post_id`, in tag-table order.
pub open spec fn spec_tags_of_post(
    tags: Seq<TagRecord>,
    assocs: Seq<PostTagRecord>,
    post_id: i32,
) -> Seq<TagRecord> {
    tags.filter(spec_tag_of_post_pred(assocs, post_id))
}

impl BlogStore {
    /// The index of the post row carrying `id`.
    pub(crate) fn find_post_index(&self, id: i32) -> (r: Option<usize>)
        ensures
            match r {
                Some(i) => i as int == spec_post_index(self.posts@, id) && i < self.posts@.len()
                    && self.posts@[i as int].id == id,
                None => !spec_post_exists(self.posts@, id),
            },
            r is Some <==> spec_post_exists(self.posts@, id),
    {
        proof {
            lemma_post_index(self.posts@, id);
        }
        let mut i: usize = 0;
        while i < self.posts.len()
            invariant
                i <= self.posts@.len(),
                forall|j: int| 0 <= j < i ==> (#[trigger] self.posts@[j].id) != id,
                spec_post_index(self.posts@, id) >= 0 ==> spec_post_index(self.posts@, id)
                    >= i,
            decreases self.posts@.len() - i,
        {
            proof {
                lemma_post_index(self.posts@, id);
                if self.posts@[i as int].id == id {
                    lemma_post_index_prefix(self.posts@, id, i as int);
                }
            }
            if self.posts[i].id == id {
                return Some(i);
            }
            i = i + 1;
        }
        proof {
            if spec_post_exists(self.posts@, id) {
                let j = choose|j: int|
                    0 <= j < self.posts@.len() && (#[trigger] self.posts@[j].id) == id;
            }
        }
        None
    }

    /// The tags linked to `post_id`, cloned out of the table in its
    /// order.
    pub(crate) fn tags_of_post(&self, post_id: i32) -> (r: Vec<TagRecord>)
        ensures
            r@ == spec_tags_of_post(self.tags@, self.post_tags@, post_id),
    {
        let mut r: Vec<TagRecord> = Vec::new();
        let mut i: usize = 0;
        proof {
            reveal(Seq::filter);
        }
        while i < self.tags.len()
            invariant
                i <= self.tags@.len(),
                r@ == self.tags@.take(i as int).filter(
                    spec_tag_of_post_pred(self.post_tags@, post_id),
                ),
            decreases self.tags@.len() - i,
        {
            proof {
                reveal(Seq::filter);
                assert(self.tags@.take(i + 1 as int).drop_last() =~= self.tags@.take(i as int));
                assert(self.tags@.take(i + 1 as int).last() == self.tags@[i as int]);
            }
            let tag_id = self.tags[i].id;
            let mut linked = false;
            let mut j: usize = 0;
            while j < self.post_tags.len()
                invariant
                    j <= self.post_tags@.len(),
                    linked == (exists|k: int|
                        0 <= k < j && (#[trigger] self.post_tags@[k]).post_id == post_id
                            && self.post_tags@[k].tag_id == tag_id),
                decreases self.post_tags@.len() - j,
            {
                let pt = self.post_tags[j];
                if pt.post_id == post_id && pt.tag_id == tag_id {
                    linked = true;
                }
                j = j + 1;
            }
            proof {
                assert(linked == spec_has_assoc(self.post_tags@, post_id, tag_id));
                assert(spec_tag_of_post_pred(self.post_tags@, post_id)(self.tags@[i as int])
                    == linked);
            }
            if linked {
                r.push(self.tags[i].clone());
            }
            i = i + 1;
        }
        proof {
            assert(self.tags@.take(self.tags@.len() as int) =~= self.tags@);
        }
        r
    }

    /// Fetches a post and its tags; absent identifiers surface as not
    /// found.
    pub fn get_post(&self, id: i32) -> (r: Result<PostWithTags, AppError>)
        ensures
            r is Ok <==> spec_post_exists(self.posts@, id),
            match r {
                Ok(pwt) => {
                    &&& pwt.post == self.posts@[spec_post_index(self.posts@, id)]
                    &&& pwt.post.id == id
                    &&& pwt.tags@ == spec_tags_of_post(self.tags@, self.post_tags@, id)
                },
                Err(e) => e is NotFound,
            },
    {
        match self.find_post_index(id) {
            Some(i) => {
                let post = self.posts[i].clone();
                proof {
                    assert(self.posts@.contains(self.posts@[i as int]));
                }
                let tags = self.tags_of_post(id);
                Ok(PostWithTags { post, tags })
            },
            None => Err(AppError::NotFound(String::from_str("post does not exist"))),
        }
    }

    /// Fetches a post by its slug; absent slugs surface as not found.
    pub fn get_post_by_slug(&self, slug: &str) -> (r: Result<PostWithTags, AppError>)
        ensures
            r is Ok <==> (exists|i: int|
                0 <= i < self.posts@.len() && (#[trigger] self.posts@[i].slug@) == slug@),
            match r {
                Ok(pwt) => {
                    &&& (exists|i: int|
                        0 <= i < self.posts@.len() && (#[trigger] self.posts@[i]) == pwt.post
                            && self.posts@[i].slug@ == slug@ && (forall|j: int|
                            0 <= j < i ==> (#[trigger] self.posts@[j].slug@) != slug@))
                    &&& pwt.post.slug@ == slug@
                    &&& pwt.tags@ == spec_tags_of_post(self.tags@, self.post_tags@, pwt.post.id)
                },
                Err(e) => e is NotFound,
            },
    {
        let mut i: usize = 0;
        while i < self.posts.len()
            invariant
                i <= self.posts@.len(),
                forall|j: int| 0 <= j < i ==> (#[trigger] self.posts@[j].slug@) != slug@,
            decreases self.posts@.len() - i,
        {
            if str_eq(self.posts[i].slug.as_str(), slug) {
                let post = self.posts[i].clone();
                proof {
                    assert(self.posts@.contains(self.posts@[i as int]));
                }
                let tags = self.tags_of_post(post.id);
                return Ok(PostWithTags { post, tags });
            }
            i = i + 1;
        }
        Err(AppError::NotFound(String::from_str("post does not exist")))
    }

    /// Deletes a post; its associations and comments cascade away with
    /// it, while tags and links survive.
    pub fn delete_post(&mut self, id: i32) -> (r: Result<(), AppError>)
        requires
            old(self).wf(),
        ensures
            final(self).wf(),
            final(self).same_tags(*old(self)),
            final(self).same_links(*old(self)),
            r is Ok <==> spec_post_exists(old(self).posts@, id),
            match r {
                Ok(u) => {
                    &&& final(self).posts@ == old(self).posts@.remove(
                        spec_post_index(old(self).posts@, id),
                    )
                    &&& final(self).next_post_id == old(self).next_post_id
                    &&& final(self).post_tags@ == old(self).post_tags@.filter(
                        spec_keeps_other_posts(id),
                    )
                    &&& final(self).comments@ == old(self).comments@.filter(
                        spec_keeps_other_comments(id),
                    )
                    &&& final(self).next_comment_id == old(self).next_comment_id
                },
                Err(e) => e is NotFound && final(self).unchanged(*old(self)),
            },
    {
        let idx = match self.find_post_index(id) {
            Some(i) => i,
            None => {
                return Err(AppError::NotFound(String::from_str("post does not exist")));
            },
        };
        let ghost posts0 = self.posts@;
        self.posts.remove(idx);
        let mut kept: Vec<PostTagRecord> = Vec::new();
        let mut i: usize = 0;
        proof {
            reveal(Seq::filter);
        }
        while i < self.post_tags.len()
            invariant
                i <= self.post_tags@.len(),
                kept@ == self.post_tags@.take(i as int).filter(spec_keeps_other_posts(id)),
            decreases self.post_tags@.len() - i,
        {
            proof {
                reveal(Seq::filter);
                assert(self.post_tags@.take(i + 1 as int).drop_last() =~= self.post_tags@.take(
                    i as int,
                ));
                assert(self.post_tags@.take(i + 1 as int).last() == self.post_tags@[i as int]);
            }
            let pt = self.post_tags[i];
            if pt.post_id != id {
                kept.push(pt);
            }
            i = i + 1;
        }
        proof {
            assert(self.post_tags@.take(self.post_tags@.len() as int) =~= self.post_tags@);
        }
        self.post_tags = kept;
        let mut ckept: Vec<CommentRecord> = Vec::new();
        let mut c: usize = 0;
        while c < self.comments.len()
            invariant
                c <= self.comments@.len(),
                ckept@ == self.comments@.take(c as int).filter(spec_keeps_other_comments(id)),
            decreases self.comments@.len() - c,
        {
            proof {
                reveal(Seq::filter);
                assert(self.comments@.take(c + 1 as int).drop_last() =~= self.comments@.take(
                    c as int,
                ));
                assert(self.comments@.take(c + 1 as int).last() == self.comments@[c as int]);
            }
            if self.comments[c].post_id != id {
                let cc = self.comments[c].clone();
                ckept.push(cc);
            }
            c = c + 1;
        }
        proof {
            assert(self.comments@.take(self.comments@.len() as int) =~= self.comments@);
        }
        self.comments = ckept;
        proof {
            lemma_delete_post_wf(*old(self), *self, id, idx as int);
        }
        Ok(())
    }

    /// Updates a post inside one atomic step.
    ///
    /// A changed title re-derives and re-resolves the slug against the
    /// stored posts (the post's own current slug included, as the store
    /// query would see it); changed content re-derives the summary; a
    /// supplied tag list fully replaces the associations, while an absent
    /// one leaves them untouched and returns them as they are. On a tag
    /// conflict the whole update rolls back.
    pub fn update_post(&mut self, id: i32, dto: UpdatePostDto, now: u64) -> (r: Result<
        PostWithTags,
        AppError,
    >)
        requires
            old(self).wf(),
            old(self).next_tag_id + spec_update_names(dto).len() <= i32::MAX,
        ensures
            final(self).wf(),
            final(self).same_comments(*old(self)),
            final(self).same_links(*old(self)),
            r is Ok <==> (spec_post_exists(old(self).posts@, id) && !(dto.tags is Some
                && spec_reconcile_conflict(spec_tag_keys(old(self).tags@), spec_update_names(dto)))),
            match r {
                Ok(pwt) => ({
                    let idx = spec_post_index(old(self).posts@, id);
                    let p0 = old(self).posts@[idx];
                    let title_changed = match dto.title {
                        Some(t) => t@ != p0.title@,
                        None => false,
                    };
                    &&& 0 <= idx < old(self).posts@.len()
                    &&& final(self).posts@ == old(self).posts@.update(idx, pwt.post)
                    &&& final(self).next_post_id == old(self).next_post_id
                    &&& pwt.post.id == id
                    &&& pwt.post.created_at == p0.created_at
                    &&& pwt.post.updated_at == now
                    &&& pwt.post.title@ == (match dto.title {
                        Some(t) => t@,
                        None => p0.title@,
                    })
                    &&& pwt.post.content_md@ == (match dto.content_md {
                        Some(c) => c@,
                        None => p0.content_md@,
                    })
                    &&& pwt.post.summary@ == (match dto.content_md {
                        Some(c) => spec_extract_summary(c@, 200),
                        None => p0.summary@,
                    })
                    &&& pwt.post.published == (match dto.published {
                        Some(p) => p,
                        None => p0.published,
                    })
                    &&& (title_changed ==> spec_resolves(
                        spec_post_slug_views(old(self).posts@),
                        spec_slugify(dto.title->Some_0@),
                        pwt.post.slug@,
                    ) && !slug_list_contains(
                        spec_post_slug_views(old(self).posts@),
                        pwt.post.slug@,
                    ))
                    &&& (!title_changed ==> pwt.post.slug@ == p0.slug@)
                    &&& (match dto.tags {
                        Some(raw) => {
                            let names = spec_normalize_names(str_views(raw@));
                            &&& pwt.tags@.len() == names.len()
                            &&& forall|i: int|
                                0 <= i < names.len() ==> (#[trigger] pwt.tags@[i]).name@
                                    == names[i]
                            &&& forall|i: int|
                                0 <= i < names.len() ==> match spec_find_tag_by_name(
                                    old(self).tags@,
                                    names[i],
                                ) {
                                    Some(t0) => (#[trigger] pwt.tags@[i]) == t0,
                                    None => pwt.tags@[i].id >= old(self).next_tag_id
                                        && pwt.tags@[i].slug@ == spec_slugify(names[i])
                                        && pwt.tags@[i].created_at == now,
                                }
                            &&& old(self).tags@.is_prefix_of(final(self).tags@)
                            &&& forall|j: int|
                                old(self).tags@.len() <= j < final(self).tags@.len()
                                    ==> pwt.tags@.contains(#[trigger] final(self).tags@[j])
                            &&& final(self).post_tags@ == old(self).post_tags@.filter(
                                spec_keeps_other_posts(id),
                            ) + pwt.tags@.map_values(spec_assoc_of(id))
                        },
                        None => {
                            &&& final(self).same_tags(*old(self))
                            &&& final(self).same_assocs(*old(self))
                            &&& pwt.tags@ == spec_tags_of_post(
                                old(self).tags@,
                                old(self).post_tags@,
                                id,
                            )
                        },
                    })
                }),
                Err(e) => {
                    &&& final(self).unchanged(*old(self))
                    &&& (e is NotFound <==> !spec_post_exists(old(self).posts@, id))
                    &&& (e is NotFound || e is Conflict)
                },
            },
    {
        let idx = match self.find_post_index(id) {
            Some(i) => i,
            None => {
                return Err(AppError::NotFound(String::from_str("post does not exist")));
            },
        };
        let p0 = self.posts[idx].clone();
        let ghost title_changed_g = dto.title is Some && dto.title->Some_0@ != p0.title@;
        let mut new_title = p0.title.clone();
        let mut new_slug = p0.slug.clone();
        match &dto.title {
            Some(t) => {
                if !str_eq(t.as_str(), p0.title.as_str()) {
                    let slugs = self.collect_post_slugs();
                    proof {
                        assert(slugs@.len() < usize::MAX);
                    }
                    let base = slugify(t.as_str());
                    new_slug = ensure_unique_slug(base.as_str(), &slugs);
                }
                new_title = t.clone();
            },
            None => {},
        }
        let mut new_content = p0.content_md.clone();
        let mut new_summary = p0.summary.clone();
        match &dto.content_md {
            Some(c) => {
                new_content = c.clone();
                new_summary = extract_summary(c.as_str(), 200);
            },
            None => {},
        }
        let new_published = match dto.published {
            Some(p) => p,
            None => p0.published,
        };
        let new_post = PostRecord {
            id,
            title: new_title,
            slug: new_slug,
            content_md: new_content,
            summary: new_summary,
            published: new_published,
            created_at: p0.created_at,
            updated_at: now,
        };
        let pclone = new_post.clone();
        let ghost store0 = *self;
        self.posts[idx] = new_post;
        proof {
            lemma_update_post_wf(store0, *self, id, idx as int, title_changed_g);
            assert(self.posts@[idx as int].id == id);
            assert(spec_post_exists(self.posts@, id));
        }
        match &dto.tags {
            Some(raw) => {
                let normalized = normalize_tag_names(raw);
                let ghost mid = *self;
                match self.handle_post_tags(id, &normalized, now) {
                    Ok(tags) => {
                        proof {
                            assert(self.post_tags@ == old(self).post_tags@.filter(
                                spec_keeps_other_posts(id),
                            ) + tags@.map_values(spec_assoc_of(id)));
                        }
                        Ok(PostWithTags { post: pclone, tags })
                    },
                    Err(e) => {
                        self.posts[idx] = p0;
                        proof {
                            assert(self.posts@ =~= old(self).posts@);
                            assert(self.unchanged(*old(self)));
                        }
                        Err(e)
                    },
                }
            },
            None => {
                let tags = self.tags_of_post(id);
                Ok(PostWithTags { post: pclone, tags })
            },
        }
    }

    /// The slugs of every stored post, the snapshot the uniqueness
    /// resolver works against.
    pub(crate) fn collect_post_slugs(&self) -> (r: Vec<String>)
        ensures
            str_views(r@) == spec_post_slug_views(self.posts@),
            r@.len() == self.posts@.len(),
    {
        let mut r: Vec<String> = Vec::new();
        let mut i: usize = 0;
        while i < self.posts.len()
            invariant
                i <= self.posts@.len(),
                r@.len() == i,
                forall|k: int| 0 <= k < i ==> (#[trigger] r@[k])@ == self.posts@[k].slug@,
            decreases self.posts@.len() - i,
        {
            r.push(self.posts[i].slug.clone());
            i = i + 1;
        }
        proof {
            assert forall|k: int|
                0 <= k < r@.len() implies #[trigger] str_views(r@)[k] == spec_post_slug_views(
                self.posts@,
            )[k] by {
                assert(str_views(r@)[k] == r@[k]@);
                assert(spec_post_slug_views(self.posts@)[k] == self.posts@[k].slug@);
            }
            assert(str_views(r@).len() == r@.len());
            assert(spec_post_slug_views(self.posts@).len() == self.posts@.len());
            assert(str_views(r@) =~= spec_post_slug_views(self.posts@));
        }
        r
    }

    /// Creates a post inside one atomic step: derives and resolves its
    /// slug against the stored posts, extracts its summary, inserts the
    /// row and replaces the (empty) tag set of the new post with the
    /// desired names.
    ///
    /// On a tag conflict the post row is not visible afterwards: the
    /// whole operation rolls back.
    pub fn create_post(&mut self, dto: CreatePostDto, now: u64) -> (r: Result<
        PostWithTags,
        AppError,
    >)
        requires
            old(self).wf(),
            old(self).next_post_id < i32::MAX,
            old(self).next_tag_id + spec_normalize_names(str_views(dto.tags@)).len() <= i32::MAX,
        ensures
            final(self).wf(),
            final(self).same_comments(*old(self)),
            final(self).same_links(*old(self)),
            r is Err <==> spec_reconcile_conflict(
                spec_tag_keys(old(self).tags@),
                spec_normalize_names(str_views(dto.tags@)),
            ),
            match r {
                Ok(pwt) => {
                    let names = spec_normalize_names(str_views(dto.tags@));
                    &&& pwt.post.id == old(self).next_post_id
                    &&& pwt.post.title@ == dto.title@
                    &&& pwt.post.content_md@ == dto.content_md@
                    &&& pwt.post.summary@ == spec_extract_summary(dto.content_md@, 200)
                    &&& pwt.post.published == dto.published
                    &&& pwt.post.created_at == now
                    &&& pwt.post.updated_at == now
                    &&& spec_resolves(
                        spec_post_slug_views(old(self).posts@),
                        spec_slugify(dto.title@),
                        pwt.post.slug@,
                    )
                    &&& !slug_list_contains(spec_post_slug_views(old(self).posts@), pwt.post.slug@)
                    &&& final(self).posts@ == old(self).posts@.push(pwt.post)
                    &&& final(self).next_post_id == old(self).next_post_id + 1
                    &&& pwt.tags@.len() == names.len()
                    &&& forall|i: int|
                        0 <= i < names.len() ==> (#[trigger] pwt.tags@[i]).name@ == names[i]
                    &&& forall|i: int|
                        0 <= i < names.len() ==> match spec_find_tag_by_name(
                            old(self).tags@,
                            names[i],
                        ) {
                            Some(t0) => (#[trigger] pwt.tags@[i]) == t0,
                            None => pwt.tags@[i].id >= old(self).next_tag_id && pwt.tags@[i].slug@
                                == spec_slugify(names[i]) && pwt.tags@[i].created_at == now,
                        }
                    &&& old(self).tags@.is_prefix_of(final(self).tags@)
                    &&& forall|j: int|
                        old(self).tags@.len() <= j < final(self).tags@.len() ==> pwt.tags@.contains(
                            #[trigger] final(self).tags@[j],
                        )
                    &&& final(self).post_tags@ == old(self).post_tags@ + pwt.tags@.map_values(
                        spec_assoc_of(pwt.post.id),
                    )
                },
                Err(e) => e is Conflict && final(self).unchanged(*old(self)),
            },
    {
        let ghost names_n = spec_normalize_names(str_views(dto.tags@));
        let slugs = self.collect_post_slugs();
        proof {
            assert(slugs@.len() < usize::MAX);
        }
        let base = slugify(dto.title.as_str());
        let slug = ensure_unique_slug(base.as_str(), &slugs);
        let summary = extract_summary(dto.content_md.as_str(), 200);
        let new_id = self.next_post_id;
        let post = PostRecord {
            id: new_id,
            title: dto.title,
            slug,
            content_md: dto.content_md,
            summary,
            published: dto.published,
            created_at: now,
            updated_at: now,
        };
        let pclone = post.clone();
        let ghost store0 = *self;
        self.posts.push(post);
        self.next_post_id = self.next_post_id + 1;
        proof {
            assert forall|i: int|
                0 <= i < store0.posts@.len() implies (#[trigger] store0.posts@[i].slug@)
                != pclone.slug@ by {
                assert(spec_post_slug_views(store0.posts@)[i] == store0.posts@[i].slug@);
            }
            assert(spec_post_exists(self.posts@, new_id)) by {
                assert(self.posts@[self.posts@.len() - 1].id == new_id);
            }
            assert forall|i: int|
                0 <= i < self.post_tags@.len() implies spec_post_exists(
                self.posts@,
                (#[trigger] self.post_tags@[i]).post_id,
            ) by {
                assert(store0.post_tags@[i] == self.post_tags@[i]);
                assert(spec_post_exists(store0.posts@, store0.post_tags@[i].post_id));
                let j = choose|j: int|
                    0 <= j < store0.posts@.len() && (#[trigger] store0.posts@[j].id)
                        == self.post_tags@[i].post_id;
                assert(self.posts@[j].id == self.post_tags@[i].post_id);
            }
            assert forall|i: int|
                0 <= i < self.comments@.len() implies spec_post_exists(
                self.posts@,
                (#[trigger] self.comments@[i]).post_id,
            ) by {
                assert(store0.comments@[i] == self.comments@[i]);
                assert(spec_post_exists(store0.posts@, store0.comments@[i].post_id));
                let j = choose|j: int|
                    0 <= j < store0.posts@.len() && (#[trigger] store0.posts@[j].id)
                        == self.comments@[i].post_id;
                assert(self.posts@[j].id == self.comments@[i].post_id);
            }
            assert(self.wf());
        }
        let normalized = normalize_tag_names(&dto.tags);
        let ghost mid = *self;
        match self.handle_post_tags(new_id, &normalized, now) {
            Ok(tags) => {
                proof {
                    assert forall|i: int|
                        0 <= i < old(self).post_tags@.len() implies spec_keeps_other_posts(new_id)(
                        #[trigger] old(self).post_tags@[i],
                    ) by {
                        assert(spec_post_exists(store0.posts@, old(self).post_tags@[i].post_id));
                        let j = choose|j: int|
                            0 <= j < store0.posts@.len() && (#[trigger] store0.posts@[j].id)
                                == old(self).post_tags@[i].post_id;
                    }
                    lemma_filter_all(old(self).post_tags@, spec_keeps_other_posts(new_id));
                }
                Ok(PostWithTags { post: pclone, tags })
            },
            Err(e) => {
                self.posts.pop();
                self.next_post_id = self.next_post_id - 1;
                proof {
                    assert(self.posts@ =~= old(self).posts@);
                    assert(self.unchanged(*old(self)));
                }
                Err(e)
            },
        }
    }
}

} // verus!
