//! Ordered post listings: the paginated index, the per-tag listing and
//! the plain-text search.

use vstd::prelude::*;
use crate::comments::spec_page;
use crate::error::AppError;
use crate::posts::{spec_has_assoc, spec_tags_of_post};
use crate::records::{PostRecord, PostWithTags};
use crate::store::BlogStore;
use crate::text::{chars_of, spec_trim, trim_str};

verus! {

/// Inserts a post into a list already sorted by descending creation
/// time, after every entry at least as recent: a stable descending
/// order.
pub open spec fn spec_insert_post_desc(s: Seq<PostRecord>, p: PostRecord) -> Seq<PostRecord>
    decreases s.len(),
{
    if s.len() == 0 {
        seq![p]
    } else if s[0].created_at >= p.created_at {
        seq![s[0]] + spec_insert_post_desc(s.drop_first(), p)
    } else {
        seq![p] + s
    }
}

/// The post rows by descending creation time, rows of equal time keeping
/// their stored order: the model of the store's ordered query.
pub open spec fn spec_sort_posts_desc(s: Seq<PostRecord>) -> Seq<PostRecord>
    decreases s.len(),
{
    if s.len() == 0 {
        Seq::empty()
    } else {
        spec_insert_post_desc(spec_sort_posts_desc(s.drop_last()), s.last())
    }
}

/// The rows a public listing keeps: all of them, or the published ones
/// only.
pub open spec fn spec_published_pred(published_only: bool) -> spec_fn(PostRecord) -> bool {
    |p: PostRecord| !published_only || p.published
}

/// Whether `needle` occurs contiguously inside `hay`.
pub open spec fn spec_is_substring(needle: Seq<char>, hay: Seq<char>) -> bool {
    exists|i: int|
        0 <= i <= hay.len() - needle.len() && #[trigger] hay.subrange(i, i + needle.len())
            == needle
}

/// The rows a search keeps: those whose title or content contains the
/// query text, the store's case-sensitive containment match.
pub open spec fn spec_search_pred(q: Seq<char>, published_only: bool) -> spec_fn(
    PostRecord,
) -> bool {
    |p: PostRecord| (spec_is_substring(q, p.title@) || spec_is_substring(q, p.content_md@)) && (
    !published_only || p.published)
}

/// The rows a per-tag listing keeps: the posts linked to the tag,
/// optionally published only.
pub open spec fn spec_tag_posts_pred(
    assocs: Seq<crate::records::PostTagRecord>,
    tag_id: i32,
    published_only: bool,
) -> spec_fn(PostRecord) -> bool {
    |p: PostRecord| spec_has_assoc(assocs, p.id, tag_id) && (!published_only || p.published)
}

proof fn lemma_insert_post_desc_at(s: Seq<PostRecord>, p: PostRecord, pos: int)
    requires
        0 <= pos <= s.len(),
        forall|j: int| 0 <= j < pos ==> (#[trigger] s[j].created_at) >= p.created_at,
        pos < s.len() ==> s[pos].created_at < p.created_at,
    ensures
        spec_insert_post_desc(s, p) == s.subrange(0, pos) + seq![p] + s.subrange(
            pos,
            s.len() as int,
        ),
    decreases pos,
{
    if pos == 0 {
        if s.len() == 0 {
            assert(spec_insert_post_desc(s, p) =~= s.subrange(0, 0) + seq![p] + s.subrange(
                0,
                s.len() as int,
            ));
        } else {
            assert(spec_insert_post_desc(s, p) == seq![p] + s);
            assert(seq![p] + s =~= s.subrange(0, 0) + seq![p] + s.subrange(0, s.len() as int));
        }
    } else {
        assert(s[0].created_at >= p.created_at);
        assert forall|j: int| 0 <= j < pos - 1 implies (#[trigger] s.drop_first()[j].created_at)
            >= p.created_at by {
            assert(s.drop_first()[j] == s[j + 1]);
        }
        if pos - 1 < s.drop_first().len() {
            assert(s.drop_first()[pos - 1] == s[pos]);
        }
        lemma_insert_post_desc_at(s.drop_first(), p, pos - 1);
        assert(seq![s[0]] + (s.drop_first().subrange(0, pos - 1) + seq![p]
            + s.drop_first().subrange(pos - 1, s.drop_first().len() as int)) =~= s.subrange(
            0,
            pos,
        ) + seq![p] + s.subrange(pos, s.len() as int));
    }
}

proof fn lemma_sort_posts_len(s: Seq<PostRecord>)
    ensures
        spec_sort_posts_desc(s).len() == s.len(),
    decreases s.len(),
{
    if s.len() > 0 {
        lemma_sort_posts_len(s.drop_last());
        lemma_insert_post_len(spec_sort_posts_desc(s.drop_last()), s.last());
    }
}

proof fn lemma_insert_post_len(s: Seq<PostRecord>, p: PostRecord)
    ensures
        spec_insert_post_desc(s, p).len() == s.len() + 1,
    decreases s.len(),
{
    if s.len() > 0 && s[0].created_at >= p.created_at {
        lemma_insert_post_len(s.drop_first(), p);
    }
}

/// Every row of an insertion result is the inserted row or a row of the
/// original list.
proof fn lemma_insert_post_elems(s: Seq<PostRecord>, p: PostRecord)
    ensures
        forall|k: int|
            0 <= k < spec_insert_post_desc(s, p).len() ==> (#[trigger] spec_insert_post_desc(
                s,
                p,
            )[k]) == p || s.contains(spec_insert_post_desc(s, p)[k]),
    decreases s.len(),
{
    if s.len() > 0 && s[0].created_at >= p.created_at {
        lemma_insert_post_elems(s.drop_first(), p);
        assert forall|k: int|
            0 <= k < spec_insert_post_desc(s, p).len() implies (#[trigger] spec_insert_post_desc(
            s,
            p,
        )[k]) == p || s.contains(spec_insert_post_desc(s, p)[k]) by {
            if k > 0 {
                let x = spec_insert_post_desc(s.drop_first(), p)[k - 1];
                if x != p {
                    let j = choose|j: int|
                        0 <= j < s.drop_first().len() && s.drop_first()[j] == x;
                    assert(s[j + 1] == x);
                }
            } else {
                assert(s[0] == spec_insert_post_desc(s, p)[0]);
            }
        }
    }
}

/// Inserting into a descending list keeps it descending.
proof fn lemma_insert_post_ordered(s: Seq<PostRecord>, p: PostRecord)
    requires
        forall|i: int, j: int|
            0 <= i < j < s.len() ==> (#[trigger] s[i]).created_at >= (#[trigger] s[j]).created_at,
    ensures
        forall|i: int, j: int|
            0 <= i < j < spec_insert_post_desc(s, p).len() ==> (#[trigger] spec_insert_post_desc(
                s,
                p,
            )[i]).created_at >= (#[trigger] spec_insert_post_desc(s, p)[j]).created_at,
    decreases s.len(),
{
    if s.len() > 0 && s[0].created_at >= p.created_at {
        assert forall|i: int, j: int|
            0 <= i < j < s.drop_first().len() implies (#[trigger] s.drop_first()[i]).created_at
            >= (#[trigger] s.drop_first()[j]).created_at by {
            assert(s.drop_first()[i] == s[i + 1]);
            assert(s.drop_first()[j] == s[j + 1]);
        }
        lemma_insert_post_ordered(s.drop_first(), p);
        lemma_insert_post_elems(s.drop_first(), p);
        let r = spec_insert_post_desc(s, p);
        assert forall|i: int, j: int|
            0 <= i < j < r.len() implies (#[trigger] r[i]).created_at
            >= (#[trigger] r[j]).created_at by {
            if i == 0 {
                let x = spec_insert_post_desc(s.drop_first(), p)[j - 1];
                if x == p {
                } else {
                    let k = choose|k: int|
                        0 <= k < s.drop_first().len() && s.drop_first()[k] == x;
                    assert(s[k + 1] == x);
                }
            }
        }
    }
}

/// The listing order the store promises: within the sorted rows, no row
/// precedes a more recent one.
pub proof fn lemma_sort_posts_ordered(s: Seq<PostRecord>)
    ensures
        forall|i: int, j: int|
            0 <= i < j < spec_sort_posts_desc(s).len() ==> (#[trigger] spec_sort_posts_desc(
                s,
            )[i]).created_at >= (#[trigger] spec_sort_posts_desc(s)[j]).created_at,
    decreases s.len(),
{
    if s.len() > 0 {
        lemma_sort_posts_ordered(s.drop_last());
        lemma_insert_post_ordered(spec_sort_posts_desc(s.drop_last()), s.last());
    }
}

/// Sorts post rows by descending creation time, stably.
fn sort_posts_desc(v: &Vec<PostRecord>) -> (r: Vec<PostRecord>)
    ensures
        r@ == spec_sort_posts_desc(v@),
        r@.len() == v@.len(),
{
    let mut r: Vec<PostRecord> = Vec::new();
    let mut i: usize = 0;
    proof {
        assert(v@.take(0) =~= Seq::<PostRecord>::empty());
    }
    while i < v.len()
        invariant
            i <= v@.len(),
            r@ == spec_sort_posts_desc(v@.take(i as int)),
            r@.len() == i,
        decreases v@.len() - i,
    {
        let p = v[i].clone();
        let mut pos: usize = 0;
        while pos < r.len() && r[pos].created_at >= p.created_at
            invariant
                pos <= r@.len(),
                forall|j: int| 0 <= j < pos ==> (#[trigger] r@[j].created_at) >= p.created_at,
            decreases r@.len() - pos,
        {
            pos = pos + 1;
        }
        let ghost before = r@;
        r.insert(pos, p);
        proof {
            lemma_insert_post_desc_at(before, p, pos as int);
            assert(r@ =~= before.subrange(0, pos as int) + seq![p] + before.subrange(
                pos as int,
                before.len() as int,
            ));
            assert(v@.take(i + 1 as int).drop_last() =~= v@.take(i as int));
            assert(v@.take(i + 1 as int).last() == v@[i as int]);
        }
        i = i + 1;
    }
    proof {
        assert(v@.take(v@.len() as int) =~= v@);
    }
    r
}

/// Whether `needle` occurs inside `hay`, by direct scan.
fn contains_sub(hay: &Vec<char>, needle: &Vec<char>) -> (r: bool)
    ensures
        r == spec_is_substring(needle@, hay@),
{
    if needle.len() > hay.len() {
        return false;
    }
    if needle.len() == 0 {
        proof {
            assert(hay@.subrange(0, 0 + needle@.len() as int) =~= needle@);
            assert(spec_is_substring(needle@, hay@));
        }
        return true;
    }
    let last_start = hay.len() - needle.len();
    let mut i: usize = 0;
    while i <= last_start
        invariant
            hay@.len() <= usize::MAX,
            needle@.len() <= hay@.len(),
            last_start == hay@.len() - needle@.len(),
            i <= last_start + 1,
            forall|k: int|
                0 <= k < i ==> #[trigger] hay@.subrange(k, k + needle@.len()) != needle@,
        decreases last_start + 1 - i,
    {
        let mut j: usize = 0;
        let mut matches = true;
        while j < needle.len()
            invariant
                hay@.len() <= usize::MAX,
                i + needle@.len() <= hay@.len(),
                j <= needle@.len(),
                matches == (forall|t: int|
                    0 <= t < j ==> (#[trigger] hay@[i + t]) == needle@[t]),
            decreases needle@.len() - j,
        {
            if hay[i + j] != needle[j] {
                proof {
                    assert(hay@[i + j as int] != needle@[j as int]);
                }
                matches = false;
                j = needle.len();
            } else {
                j = j + 1;
            }
        }
        if matches {
            proof {
                assert forall|t: int|
                    0 <= t < needle@.len() implies hay@.subrange(i as int, i + needle@.len())[t]
                    == needle@[t] by {
                    assert(hay@[i + t] == needle@[t]);
                }
                assert(hay@.subrange(i as int, i + needle@.len()) =~= needle@);
            }
            return true;
        }
        proof {
            assert(hay@.subrange(i as int, i + needle@.len()) != needle@) by {
                let t = choose|t: int|
                    0 <= t < needle@.len() && (#[trigger] hay@[i + t]) != needle@[t];
                assert(hay@.subrange(i as int, i + needle@.len())[t] == hay@[i + t]);
            }
        }
        i = i + 1;
    }
    proof {
        if spec_is_substring(needle@, hay@) {
            let k = choose|k: int|
                0 <= k <= hay@.len() - needle@.len() && #[trigger] hay@.subrange(
                    k,
                    k + needle@.len(),
                ) == needle@;
        }
    }
    false
}

impl BlogStore {
    /// Builds the listed value for each post of an ordered page: the row
    /// with its tags.
    fn with_tags(&self, page_rows: &Vec<PostRecord>) -> (r: Vec<PostWithTags>)
        ensures
            r@.len() == page_rows@.len(),
            forall|k: int|
                0 <= k < page_rows@.len() ==> (#[trigger] r@[k]).post == page_rows@[k]
                    && r@[k].tags@ == spec_tags_of_post(
                    self.tags@,
                    self.post_tags@,
                    page_rows@[k].id,
                ),
    {
        let mut r: Vec<PostWithTags> = Vec::new();
        let mut i: usize = 0;
        while i < page_rows.len()
            invariant
                i <= page_rows@.len(),
                r@.len() == i,
                forall|k: int|
                    0 <= k < i ==> (#[trigger] r@[k]).post == page_rows@[k] && r@[k].tags@
                        == spec_tags_of_post(self.tags@, self.post_tags@, page_rows@[k].id),
            decreases page_rows@.len() - i,
        {
            let post = page_rows[i].clone();
            let tags = self.tags_of_post(post.id);
            r.push(PostWithTags { post, tags });
            i = i + 1;
        }
        r
    }

    /// One page of the posts, cloned out of the ordered listing.
    fn page_of_posts(&self, sorted: &Vec<PostRecord>, page: u64, limit: u64) -> (r: Vec<
        PostRecord,
    >)
        requires
            page >= 1,
            limit >= 1,
            (page - 1) * limit + limit <= u64::MAX,
        ensures
            r@ == spec_page(sorted@, page as int, limit as int),
    {
        let start64: u64 = (page - 1) * limit;
        let mut r: Vec<PostRecord> = Vec::new();
        if start64 >= sorted.len() as u64 {
            proof {
                assert((page - 1) * limit >= sorted@.len());
            }
            return r;
        }
        let start: usize = start64 as usize;
        let end: usize = if start64 + limit <= sorted.len() as u64 {
            (start64 + limit) as usize
        } else {
            sorted.len()
        };
        let mut k: usize = start;
        while k < end
            invariant
                start <= k <= end <= sorted@.len(),
                r@ == sorted@.subrange(start as int, k as int),
            decreases end - k,
        {
            r.push(sorted[k].clone());
            proof {
                assert(r@ =~= sorted@.subrange(start as int, k + 1 as int));
            }
            k = k + 1;
        }
        proof {
            assert(start as int == (page as int - 1) * limit as int);
        }
        r
    }

    /// Filters the posts by a named predicate, in table order.
    fn filter_posts(&self, published_only: bool) -> (r: Vec<PostRecord>)
        ensures
            r@ == self.posts@.filter(spec_published_pred(published_only)),
    {
        let mut r: Vec<PostRecord> = Vec::new();
        let mut i: usize = 0;
        proof {
            reveal(Seq::filter);
        }
        while i < self.posts.len()
            invariant
                i <= self.posts@.len(),
                r@ == self.posts@.take(i as int).filter(spec_published_pred(published_only)),
            decreases self.posts@.len() - i,
        {
            proof {
                reveal(Seq::filter);
                assert(self.posts@.take(i + 1 as int).drop_last() =~= self.posts@.take(i as int));
                assert(self.posts@.take(i + 1 as int).last() == self.posts@[i as int]);
            }
            if !published_only || self.posts[i].published {
                let p = self.posts[i].clone();
                r.push(p);
            }
            i = i + 1;
        }
        proof {
            assert(self.posts@.take(self.posts@.len() as int) =~= self.posts@);
        }
        r
    }

    /// The paginated post index, newest first, each post with its tags;
    /// the total counts every row the filter keeps.
    pub fn list_posts(&self, page: u64, limit: u64, published_only: bool) -> (r: (
        Vec<PostWithTags>,
        u64,
    ))
        requires
            page >= 1,
            limit >= 1,
            (page - 1) * limit + limit <= u64::MAX,
        ensures
            ({
                let flt = spec_sort_posts_desc(
                    self.posts@.filter(spec_published_pred(published_only)),
                );
                let pg = spec_page(flt, page as int, limit as int);
                &&& r.1 == flt.len()
                &&& r.0@.len() == pg.len()
                &&& forall|k: int|
                    0 <= k < pg.len() ==> (#[trigger] r.0@[k]).post == pg[k] && r.0@[k].tags@
                        == spec_tags_of_post(self.tags@, self.post_tags@, pg[k].id)
            }),
    {
        let kept = self.filter_posts(published_only);
        let total = kept.len() as u64;
        let sorted = sort_posts_desc(&kept);
        let rows = self.page_of_posts(&sorted, page, limit);
        let out = self.with_tags(&rows);
        (out, total)
    }

    /// Case-sensitive plain-text search over titles and content, newest
    /// first, each hit with its tags; a blank query finds nothing.
    pub fn search_posts(&self, query: &str, published_only: bool) -> (r: Vec<PostWithTags>)
        ensures
            spec_trim(query@).len() == 0 ==> r@.len() == 0,
            spec_trim(query@).len() > 0 ==> ({
                let flt = spec_sort_posts_desc(
                    self.posts@.filter(spec_search_pred(query@, published_only)),
                );
                &&& r@.len() == flt.len()
                &&& forall|k: int|
                    0 <= k < flt.len() ==> (#[trigger] r@[k]).post == flt[k] && r@[k].tags@
                        == spec_tags_of_post(self.tags@, self.post_tags@, flt[k].id)
            }),
    {
        let trimmed = trim_str(query);
        if trimmed.as_str().is_empty() {
            return Vec::new();
        }
        let qchars = chars_of(query);
        let mut kept: Vec<PostRecord> = Vec::new();
        let mut i: usize = 0;
        proof {
            reveal(Seq::filter);
        }
        while i < self.posts.len()
            invariant
                i <= self.posts@.len(),
                qchars@ == query@,
                kept@ == self.posts@.take(i as int).filter(
                    spec_search_pred(query@, published_only),
                ),
            decreases self.posts@.len() - i,
        {
            proof {
                reveal(Seq::filter);
                assert(self.posts@.take(i + 1 as int).drop_last() =~= self.posts@.take(i as int));
                assert(self.posts@.take(i + 1 as int).last() == self.posts@[i as int]);
            }
            let title_chars = chars_of(self.posts[i].title.as_str());
            let content_chars = chars_of(self.posts[i].content_md.as_str());
            let hit = (contains_sub(&title_chars, &qchars) || contains_sub(
                &content_chars,
                &qchars,
            )) && (!published_only || self.posts[i].published);
            if hit {
                let p = self.posts[i].clone();
                kept.push(p);
            }
            i = i + 1;
        }
        proof {
            assert(self.posts@.take(self.posts@.len() as int) =~= self.posts@);
        }
        let sorted = sort_posts_desc(&kept);
        let out = self.with_tags(&sorted);
        out
    }

    /// The paginated listing of one tag's posts, newest first, each with
    /// its tags; an absent tag surfaces as not found.
    pub fn get_tag_posts(&self, tag_id: i32, page: u64, limit: u64, published_only: bool) -> (r:
        Result<(Vec<PostWithTags>, u64), AppError>)
        requires
            page >= 1,
            limit >= 1,
            (page - 1) * limit + limit <= u64::MAX,
        ensures
            r is Ok <==> crate::store::spec_tag_exists(self.tags@, tag_id),
            match r {
                Ok(pair) => ({
                    let flt = spec_sort_posts_desc(
                        self.posts@.filter(
                            spec_tag_posts_pred(self.post_tags@, tag_id, published_only),
                        ),
                    );
                    let pg = spec_page(flt, page as int, limit as int);
                    &&& pair.1 == flt.len()
                    &&& pair.0@.len() == pg.len()
                    &&& forall|k: int|
                        0 <= k < pg.len() ==> (#[trigger] pair.0@[k]).post == pg[k]
                            && pair.0@[k].tags@ == spec_tags_of_post(
                            self.tags@,
                            self.post_tags@,
                            pg[k].id,
                        )
                }),
                Err(e) => e is NotFound,
            },
    {
        if self.find_tag_row(tag_id).is_none() {
            return Err(AppError::NotFound(String::from_str("tag does not exist")));
        }
        let mut kept: Vec<PostRecord> = Vec::new();
        let mut i: usize = 0;
        proof {
            reveal(Seq::filter);
        }
        while i < self.posts.len()
            invariant
                i <= self.posts@.len(),
                kept@ == self.posts@.take(i as int).filter(
                    spec_tag_posts_pred(self.post_tags@, tag_id, published_only),
                ),
            decreases self.posts@.len() - i,
        {
            proof {
                reveal(Seq::filter);
                assert(self.posts@.take(i + 1 as int).drop_last() =~= self.posts@.take(i as int));
                assert(self.posts@.take(i + 1 as int).last() == self.posts@[i as int]);
            }
            let pid = self.posts[i].id;
            let mut linked = false;
            let mut j: usize = 0;
            while j < self.post_tags.len()
                invariant
                    j <= self.post_tags@.len(),
                    linked == (exists|k: int|
                        0 <= k < j && (#[trigger] self.post_tags@[k]).post_id == pid
                            && self.post_tags@[k].tag_id == tag_id),
                decreases self.post_tags@.len() - j,
            {
                let pt = self.post_tags[j];
                if pt.post_id == pid && pt.tag_id == tag_id {
                    linked = true;
                }
                j = j + 1;
            }
            proof {
                assert(linked == spec_has_assoc(self.post_tags@, pid, tag_id));
            }
            if linked && (!published_only || self.posts[i].published) {
                let p = self.posts[i].clone();
                kept.push(p);
            }
            i = i + 1;
        }
        proof {
            assert(self.posts@.take(self.posts@.len() as int) =~= self.posts@);
        }
        let total = kept.len() as u64;
        let sorted = sort_posts_desc(&kept);
        let rows = self.page_of_posts(&sorted, page, limit);
        let out = self.with_tags(&rows);
        Ok((out, total))
    }
}

} // verus!
