//! Comment creation, moderation and listing against the store.
//!
//! A comment is only accepted against a published post, enters in the
//! pending state, and changes state only through an explicit moderation
//! action.

use vstd::prelude::*;
use crate::error::AppError;
use crate::posts::{lemma_post_index, spec_post_index};
use crate::records::{
    CommentRecord, CommentStatus, CreateCommentDto, spec_parse_status,
};
use crate::store::{spec_post_exists, BlogStore};

verus! {

/// The index of the comment row carrying `id`, or a negative value.
pub open spec fn spec_comment_index(comments: Seq<CommentRecord>, id: i32) -> int
    decreases comments.len(),
{
    if comments.len() == 0 {
        -1
    } else if comments[0].id == id {
        0
    } else {
        let r = spec_comment_index(comments.drop_first(), id);
        if r < 0 {
            -1
        } else {
            r + 1
        }
    }
}

/// Whether some comment row carries `id`.
pub open spec fn spec_comment_exists(comments: Seq<CommentRecord>, id: i32) -> bool {
    exists|i: int| 0 <= i < comments.len() && (#[trigger] comments[i].id) == id
}

/// The comment index function finds a row exactly when one exists.
pub proof fn lemma_comment_index(comments: Seq<CommentRecord>, id: i32)
    ensures
        spec_comment_index(comments, id) >= 0 <==> spec_comment_exists(comments, id),
        spec_comment_index(comments, id) >= 0 ==> spec_comment_index(comments, id)
            < comments.len() && comments[spec_comment_index(comments, id)].id == id,
    decreases comments.len(),
{
    if comments.len() > 0 && comments[0].id != id {
        lemma_comment_index(comments.drop_first(), id);
        if spec_comment_exists(comments, id) {
            let i = choose|i: int| 0 <= i < comments.len() && (#[trigger] comments[i].id) == id;
            assert(comments.drop_first()[i - 1].id == id);
        }
        if spec_comment_exists(comments.drop_first(), id) {
            let i = choose|i: int|
                0 <= i < comments.drop_first().len() && (#[trigger] comments.drop_first()[i].id)
                    == id;
            assert(comments[i + 1].id == id);
        }
    }
}

/// Inserts a comment into a list already sorted by descending creation
/// time, after every entry at least as recent: a stable descending
/// order.
pub open spec fn spec_insert_desc(s: Seq<CommentRecord>, c: CommentRecord) -> Seq<CommentRecord>
    decreases s.len(),
{
    if s.len() == 0 {
        seq![c]
    } else if s[0].created_at >= c.created_at {
        seq![s[0]] + spec_insert_desc(s.drop_first(), c)
    } else {
        seq![c] + s
    }
}

/// The rows ordered by descending creation time, entries of equal time
/// keeping their stored order: the model of the store's ordered query.
pub open spec fn spec_sort_desc(s: Seq<CommentRecord>) -> Seq<CommentRecord>
    decreases s.len(),
{
    if s.len() == 0 {
        Seq::empty()
    } else {
        spec_insert_desc(spec_sort_desc(s.drop_last()), s.last())
    }
}

/// One page of an ordered listing: rows `(page-1)*limit` up to `limit`
/// of them.
pub open spec fn spec_page<A>(s: Seq<A>, page: int, limit: int) -> Seq<A> {
    let start = (page - 1) * limit;
    if start >= s.len() {
        Seq::empty()
    } else if start + limit <= s.len() {
        s.subrange(start, start + limit)
    } else {
        s.subrange(start, s.len() as int)
    }
}

/// The comment rows a post listing keeps: the post's own comments, all
/// of them or the approved ones only.
pub open spec fn spec_post_comments_pred(post_id: i32, include_pending: bool) -> spec_fn(
    CommentRecord,
) -> bool {
    |c: CommentRecord| c.post_id == post_id && (include_pending || c.status
        == CommentStatus::Approved)
}

/// The comment rows an administrative listing keeps: all of them, or
/// those whose status reads as the given text; text naming no known
/// status keeps nothing, as an equality filter against the status column
/// would.
pub open spec fn spec_all_comments_pred(status: Option<Seq<char>>) -> spec_fn(
    CommentRecord,
) -> bool {
    |c: CommentRecord| match status {
        Some(s) => match spec_parse_status(s) {
            Some(st) => c.status == st,
            None => false,
        },
        None => true,
    }
}

/// Inserting at the first position whose entry is strictly older keeps
/// the specified order.
proof fn lemma_insert_desc_at(s: Seq<CommentRecord>, c: CommentRecord, p: int)
    requires
        0 <= p <= s.len(),
        forall|j: int| 0 <= j < p ==> (#[trigger] s[j].created_at) >= c.created_at,
        p < s.len() ==> s[p].created_at < c.created_at,
    ensures
        spec_insert_desc(s, c) == s.subrange(0, p) + seq![c] + s.subrange(p, s.len() as int),
    decreases p,
{
    if p == 0 {
        if s.len() == 0 {
            assert(spec_insert_desc(s, c) =~= s.subrange(0, 0) + seq![c] + s.subrange(
                0,
                s.len() as int,
            ));
        } else {
            assert(s[0].created_at < c.created_at);
            assert(spec_insert_desc(s, c) == seq![c] + s);
            assert(seq![c] + s =~= s.subrange(0, 0) + seq![c] + s.subrange(0, s.len() as int));
        }
    } else {
        assert(s[0].created_at >= c.created_at);
        assert forall|j: int| 0 <= j < p - 1 implies (#[trigger] s.drop_first()[j].created_at)
            >= c.created_at by {
            assert(s.drop_first()[j] == s[j + 1]);
        }
        if p - 1 < s.drop_first().len() {
            assert(s.drop_first()[p - 1] == s[p]);
        }
        lemma_insert_desc_at(s.drop_first(), c, p - 1);
        assert(spec_insert_desc(s, c) == seq![s[0]] + spec_insert_desc(s.drop_first(), c));
        assert(seq![s[0]] + (s.drop_first().subrange(0, p - 1) + seq![c]
            + s.drop_first().subrange(p - 1, s.drop_first().len() as int)) =~= s.subrange(0, p)
            + seq![c] + s.subrange(p, s.len() as int));
    }
}

/// Sorts comment rows by descending creation time, stably.
fn sort_comments_desc(v: &Vec<CommentRecord>) -> (r: Vec<CommentRecord>)
    ensures
        r@ == spec_sort_desc(v@),
{
    let mut r: Vec<CommentRecord> = Vec::new();
    let mut i: usize = 0;
    proof {
        assert(v@.take(0) =~= Seq::<CommentRecord>::empty());
    }
    while i < v.len()
        invariant
            i <= v@.len(),
            r@ == spec_sort_desc(v@.take(i as int)),
        decreases v@.len() - i,
    {
        let c = v[i].clone();
        let mut pos: usize = 0;
        while pos < r.len() && r[pos].created_at >= c.created_at
            invariant
                pos <= r@.len(),
                forall|j: int| 0 <= j < pos ==> (#[trigger] r@[j].created_at) >= c.created_at,
            decreases r@.len() - pos,
        {
            pos = pos + 1;
        }
        let ghost before = r@;
        r.insert(pos, c);
        proof {
            lemma_insert_desc_at(before, c, pos as int);
            assert(r@ =~= before.subrange(0, pos as int) + seq![c] + before.subrange(
                pos as int,
                before.len() as int,
            ));
            assert(v@.take(i + 1 as int).drop_last() =~= v@.take(i as int));
            assert(v@.take(i + 1 as int).last() == v@[i as int]);
        }
        i = i + 1;
    }
    proof {
        assert(v@.take(v@.len() as int) =~= v@);
    }
    r
}

/// One page of an already-ordered listing, cloned out.
fn page_of_comments(v: &Vec<CommentRecord>, page: u64, limit: u64) -> (r: Vec<CommentRecord>)
    requires
        page >= 1,
        limit >= 1,
        (page - 1) * limit + limit <= u64::MAX,
    ensures
        r@ == spec_page(v@, page as int, limit as int),
{
    let start64: u64 = (page - 1) * limit;
    let mut r: Vec<CommentRecord> = Vec::new();
    if start64 >= v.len() as u64 {
        proof {
            assert((page - 1) * limit >= v@.len());
        }
        return r;
    }
    let start: usize = start64 as usize;
    let end: usize = if start64 + limit <= v.len() as u64 {
        (start64 + limit) as usize
    } else {
        v.len()
    };
    let mut k: usize = start;
    while k < end
        invariant
            start <= k <= end <= v@.len(),
            r@ == v@.subrange(start as int, k as int),
        decreases end - k,
    {
        r.push(v[k].clone());
        proof {
            assert(r@ =~= v@.subrange(start as int, k + 1 as int));
        }
        k = k + 1;
    }
    proof {
        assert(start as int == (page as int - 1) * limit as int);
    }
    r
}

impl BlogStore {
    /// Accepts a comment against a published post: the row enters in the
    /// pending state, carrying the caller's values and time.
    pub fn create_comment(&mut self, dto: CreateCommentDto, now: u64) -> (r: Result<
        CommentRecord,
        AppError,
    >)
        requires
            old(self).wf(),
            old(self).next_comment_id < i32::MAX,
        ensures
            final(self).wf(),
            final(self).same_posts(*old(self)),
            final(self).same_tags(*old(self)),
            final(self).same_assocs(*old(self)),
            final(self).same_links(*old(self)),
            r is Ok <==> (spec_post_exists(old(self).posts@, dto.post_id) && old(self).posts@[
                spec_post_index(old(self).posts@, dto.post_id)
            ].published),
            match r {
                Ok(c) => {
                    &&& c.id == old(self).next_comment_id
                    &&& c.post_id == dto.post_id
                    &&& c.nickname@ == dto.nickname@
                    &&& c.email@ == dto.email@
                    &&& c.content@ == dto.content@
                    &&& c.status == CommentStatus::Pending
                    &&& c.created_at == now
                    &&& final(self).comments@ == old(self).comments@.push(c)
                    &&& final(self).next_comment_id == old(self).next_comment_id + 1
                },
                Err(e) => {
                    &&& final(self).unchanged(*old(self))
                    &&& (e is NotFound <==> !spec_post_exists(old(self).posts@, dto.post_id))
                    &&& (e is NotFound || e is ValidationError)
                },
            },
    {
        let idx = match self.find_post_index(dto.post_id) {
            Some(i) => i,
            None => {
                return Err(AppError::NotFound(String::from_str("post does not exist")));
            },
        };
        if !self.posts[idx].published {
            return Err(
                AppError::ValidationError(
                    String::from_str("cannot comment on an unpublished post"),
                ),
            );
        }
        let c = CommentRecord {
            id: self.next_comment_id,
            post_id: dto.post_id,
            nickname: dto.nickname,
            email: dto.email,
            content: dto.content,
            status: CommentStatus::Pending,
            created_at: now,
        };
        let out = c.clone();
        self.comments.push(c);
        self.next_comment_id = self.next_comment_id + 1;
        proof {
            assert(spec_post_exists(self.posts@, out.post_id)) by {
                assert(self.posts@[idx as int].id == out.post_id);
            }
        }
        Ok(out)
    }

    /// Lists a post's comments, newest first, paginated; the total
    /// counts every row the filter keeps.
    pub fn list_comments(&self, post_id: i32, page: u64, limit: u64, include_pending: bool) -> (r:
        Result<(Vec<CommentRecord>, u64), AppError>)
        requires
            page >= 1,
            limit >= 1,
            (page - 1) * limit + limit <= u64::MAX,
        ensures
            r is Ok <==> spec_post_exists(self.posts@, post_id),
            match r {
                Ok(pair) => ({
                    let flt = spec_sort_desc(
                        self.comments@.filter(spec_post_comments_pred(post_id, include_pending)),
                    );
                    &&& pair.1 == flt.len()
                    &&& pair.0@ == spec_page(flt, page as int, limit as int)
                }),
                Err(e) => e is NotFound,
            },
    {
        if self.find_post_index(post_id).is_none() {
            return Err(AppError::NotFound(String::from_str("post does not exist")));
        }
        let mut kept: Vec<CommentRecord> = Vec::new();
        let mut i: usize = 0;
        proof {
            reveal(Seq::filter);
        }
        while i < self.comments.len()
            invariant
                i <= self.comments@.len(),
                kept@ == self.comments@.take(i as int).filter(
                    spec_post_comments_pred(post_id, include_pending),
                ),
            decreases self.comments@.len() - i,
        {
            proof {
                reveal(Seq::filter);
                assert(self.comments@.take(i + 1 as int).drop_last() =~= self.comments@.take(
                    i as int,
                ));
                assert(self.comments@.take(i + 1 as int).last() == self.comments@[i as int]);
            }
            let keep = self.comments[i].post_id == post_id && (include_pending
                || self.comments[i].status == CommentStatus::Approved);
            if keep {
                let c = self.comments[i].clone();
                kept.push(c);
            }
            i = i + 1;
        }
        proof {
            assert(self.comments@.take(self.comments@.len() as int) =~= self.comments@);
        }
        let total = kept.len() as u64;
        let sorted = sort_comments_desc(&kept);
        proof {
            assert(sorted@.len() == kept@.len()) by {
                lemma_sort_desc_len(kept@);
            }
        }
        let items = page_of_comments(&sorted, page, limit);
        Ok((items, total))
    }

    /// Lists every comment, newest first, paginated, optionally filtered
    /// by a textual status; text naming no known status keeps nothing.
    pub fn list_all_comments(&self, page: u64, limit: u64, status: Option<&str>) -> (r: (
        Vec<CommentRecord>,
        u64,
    ))
        requires
            page >= 1,
            limit >= 1,
            (page - 1) * limit + limit <= u64::MAX,
        ensures
            ({
                let flt = spec_sort_desc(
                    self.comments@.filter(
                        spec_all_comments_pred(
                            match status {
                                Some(s) => Some(s@),
                                None => None,
                            },
                        ),
                    ),
                );
                &&& r.1 == flt.len()
                &&& r.0@ == spec_page(flt, page as int, limit as int)
            }),
    {
        let ghost status_view: Option<Seq<char>> = match status {
            Some(s) => Some(s@),
            None => None,
        };
        let parsed: Option<CommentStatus> = match status {
            Some(s) => CommentStatus::parse(s),
            None => None,
        };
        let filter_active = match status {
            Some(_) => true,
            None => false,
        };
        let mut kept: Vec<CommentRecord> = Vec::new();
        let mut i: usize = 0;
        proof {
            reveal(Seq::filter);
        }
        while i < self.comments.len()
            invariant
                i <= self.comments@.len(),
                kept@ == self.comments@.take(i as int).filter(spec_all_comments_pred(status_view)),
                filter_active == (status_view is Some),
                filter_active ==> parsed == spec_parse_status(status_view->Some_0),
            decreases self.comments@.len() - i,
        {
            proof {
                reveal(Seq::filter);
                assert(self.comments@.take(i + 1 as int).drop_last() =~= self.comments@.take(
                    i as int,
                ));
                assert(self.comments@.take(i + 1 as int).last() == self.comments@[i as int]);
            }
            let keep = if filter_active {
                match parsed {
                    Some(st) => self.comments[i].status == st,
                    None => false,
                }
            } else {
                true
            };
            if keep {
                let c = self.comments[i].clone();
                kept.push(c);
            }
            i = i + 1;
        }
        proof {
            assert(self.comments@.take(self.comments@.len() as int) =~= self.comments@);
        }
        let total = kept.len() as u64;
        let sorted = sort_comments_desc(&kept);
        proof {
            lemma_sort_desc_len(kept@);
        }
        let items = page_of_comments(&sorted, page, limit);
        (items, total)
    }

    /// Moves a comment into the named moderation state; unknown status
    /// text is rejected before the row is even looked up.
    pub fn update_comment_status(&mut self, id: i32, status: &str) -> (r: Result<
        CommentRecord,
        AppError,
    >)
        requires
            old(self).wf(),
        ensures
            final(self).wf(),
            final(self).same_posts(*old(self)),
            final(self).same_tags(*old(self)),
            final(self).same_assocs(*old(self)),
            final(self).same_links(*old(self)),
            r is Ok <==> (spec_parse_status(status@) is Some && spec_comment_exists(
                old(self).comments@,
                id,
            )),
            match r {
                Ok(c) => ({
                    let idx = spec_comment_index(old(self).comments@, id);
                    let c0 = old(self).comments@[idx];
                    &&& 0 <= idx < old(self).comments@.len()
                    &&& c.id == id
                    &&& c.post_id == c0.post_id
                    &&& c.nickname@ == c0.nickname@
                    &&& c.email@ == c0.email@
                    &&& c.content@ == c0.content@
                    &&& c.created_at == c0.created_at
                    &&& Some(c.status) == spec_parse_status(status@)
                    &&& final(self).comments@ == old(self).comments@.update(idx, c)
                    &&& final(self).next_comment_id == old(self).next_comment_id
                }),
                Err(e) => {
                    &&& final(self).unchanged(*old(self))
                    &&& (e is ValidationError <==> spec_parse_status(status@) is None)
                    &&& (e is ValidationError || e is NotFound)
                },
            },
    {
        let st = match CommentStatus::parse(status) {
            Some(st) => st,
            None => {
                return Err(AppError::ValidationError(String::from_str("unknown comment status")));
            },
        };
        let idx = match self.find_comment_index(id) {
            Some(i) => i,
            None => {
                return Err(AppError::NotFound(String::from_str("comment does not exist")));
            },
        };
        let mut c = self.comments[idx].clone();
        c.status = st;
        let out = c.clone();
        self.comments[idx] = c;
        proof {
            let c1 = self.comments@;
            let c0 = old(self).comments@;
            assert forall|i: int| 0 <= i < c1.len() implies (#[trigger] c1[i].id) == c0[i].id
                && c1[i].post_id == c0[i].post_id by {
                if i != idx {
                    assert(c1[i] == c0[i]);
                }
            }
            assert forall|i: int|
                0 <= i < c1.len() implies spec_post_exists(
                self.posts@,
                (#[trigger] c1[i]).post_id,
            ) by {
                assert(spec_post_exists(old(self).posts@, c0[i].post_id));
            }
        }
        Ok(out)
    }

    /// Deletes a comment row.
    pub fn delete_comment(&mut self, id: i32) -> (r: Result<(), AppError>)
        requires
            old(self).wf(),
        ensures
            final(self).wf(),
            final(self).same_posts(*old(self)),
            final(self).same_tags(*old(self)),
            final(self).same_assocs(*old(self)),
            final(self).same_links(*old(self)),
            r is Ok <==> spec_comment_exists(old(self).comments@, id),
            match r {
                Ok(u) => {
                    &&& final(self).comments@ == old(self).comments@.remove(
                        spec_comment_index(old(self).comments@, id),
                    )
                    &&& final(self).next_comment_id == old(self).next_comment_id
                },
                Err(e) => e is NotFound && final(self).unchanged(*old(self)),
            },
    {
        let idx = match self.find_comment_index(id) {
            Some(i) => i,
            None => {
                return Err(AppError::NotFound(String::from_str("comment does not exist")));
            },
        };
        let ghost c0 = self.comments@;
        self.comments.remove(idx);
        proof {
            let c1 = self.comments@;
            assert forall|i: int| 0 <= i < c1.len() implies #[trigger] c1[i] == (if i < idx {
                c0[i]
            } else {
                c0[i + 1]
            }) by {}
            assert forall|i: int|
                0 <= i < c1.len() implies spec_post_exists(
                self.posts@,
                (#[trigger] c1[i]).post_id,
            ) by {
                if i < idx {
                    assert(spec_post_exists(old(self).posts@, c0[i].post_id));
                } else {
                    assert(spec_post_exists(old(self).posts@, c0[i + 1].post_id));
                }
            }
        }
        Ok(())
    }

    /// The index of the comment row carrying `id`.
    fn find_comment_index(&self, id: i32) -> (r: Option<usize>)
        ensures
            match r {
                Some(i) => i as int == spec_comment_index(self.comments@, id) && i
                    < self.comments@.len() && self.comments@[i as int].id == id,
                None => !spec_comment_exists(self.comments@, id),
            },
            r is Some <==> spec_comment_exists(self.comments@, id),
    {
        proof {
            lemma_comment_index(self.comments@, id);
        }
        let mut i: usize = 0;
        while i < self.comments.len()
            invariant
                i <= self.comments@.len(),
                forall|j: int| 0 <= j < i ==> (#[trigger] self.comments@[j].id) != id,
                spec_comment_index(self.comments@, id) >= 0 ==> spec_comment_index(
                    self.comments@,
                    id,
                ) >= i,
            decreases self.comments@.len() - i,
        {
            proof {
                lemma_comment_index(self.comments@, id);
                if self.comments@[i as int].id == id {
                    lemma_comment_index_prefix(self.comments@, id, i as int);
                }
            }
            if self.comments[i].id == id {
                return Some(i);
            }
            i = i + 1;
        }
        proof {
            if spec_comment_exists(self.comments@, id) {
                let j = choose|j: int|
                    0 <= j < self.comments@.len() && (#[trigger] self.comments@[j].id) == id;
            }
        }
        None
    }
}

/// The comment index function points at the first matching row.
proof fn lemma_comment_index_prefix(comments: Seq<CommentRecord>, id: i32, i: int)
    requires
        0 <= i < comments.len(),
        forall|j: int| 0 <= j < i ==> (#[trigger] comments[j].id) != id,
        comments[i].id == id,
    ensures
        spec_comment_index(comments, id) == i,
    decreases i,
{
    if i > 0 {
        assert(comments[0].id != id);
        assert forall|j: int| 0 <= j < i - 1 implies (#[trigger] comments.drop_first()[j].id)
            != id by {
            assert(comments.drop_first()[j] == comments[j + 1]);
        }
        assert(comments.drop_first()[i - 1] == comments[i]);
        lemma_comment_index_prefix(comments.drop_first(), id, i - 1);
    }
}

/// Stable sorting keeps the number of rows.
proof fn lemma_sort_desc_len(s: Seq<CommentRecord>)
    ensures
        spec_sort_desc(s).len() == s.len(),
    decreases s.len(),
{
    if s.len() > 0 {
        lemma_sort_desc_len(s.drop_last());
        lemma_insert_desc_len(spec_sort_desc(s.drop_last()), s.last());
    }
}

/// Insertion grows a list by exactly one row.
proof fn lemma_insert_desc_len(s: Seq<CommentRecord>, c: CommentRecord)
    ensures
        spec_insert_desc(s, c).len() == s.len() + 1,
    decreases s.len(),
{
    if s.len() > 0 && s[0].created_at >= c.created_at {
        lemma_insert_desc_len(s.drop_first(), c);
    }
}

/// Every row of an insertion result is the inserted row or a row of the
/// original list.
proof fn lemma_insert_desc_elems(s: Seq<CommentRecord>, c: CommentRecord)
    ensures
        forall|k: int|
            0 <= k < spec_insert_desc(s, c).len() ==> (#[trigger] spec_insert_desc(s, c)[k]) == c
                || s.contains(spec_insert_desc(s, c)[k]),
    decreases s.len(),
{
    if s.len() > 0 && s[0].created_at >= c.created_at {
        lemma_insert_desc_elems(s.drop_first(), c);
        assert forall|k: int|
            0 <= k < spec_insert_desc(s, c).len() implies (#[trigger] spec_insert_desc(s, c)[k])
            == c || s.contains(spec_insert_desc(s, c)[k]) by {
            if k > 0 {
                let x = spec_insert_desc(s.drop_first(), c)[k - 1];
                if x != c {
                    let j = choose|j: int|
                        0 <= j < s.drop_first().len() && s.drop_first()[j] == x;
                    assert(s[j + 1] == x);
                }
            } else {
                assert(s[0] == spec_insert_desc(s, c)[0]);
            }
        }
    }
}

/// Inserting into a descending list keeps it descending.
proof fn lemma_insert_desc_ordered(s: Seq<CommentRecord>, c: CommentRecord)
    requires
        forall|i: int, j: int|
            0 <= i < j < s.len() ==> (#[trigger] s[i]).created_at >= (#[trigger] s[j]).created_at,
    ensures
        forall|i: int, j: int|
            0 <= i < j < spec_insert_desc(s, c).len() ==> (#[trigger] spec_insert_desc(s, c)[i]).created_at
                >= (#[trigger] spec_insert_desc(s, c)[j]).created_at,
    decreases s.len(),
{
    if s.len() > 0 && s[0].created_at >= c.created_at {
        assert forall|i: int, j: int|
            0 <= i < j < s.drop_first().len() implies (#[trigger] s.drop_first()[i]).created_at
            >= (#[trigger] s.drop_first()[j]).created_at by {
            assert(s.drop_first()[i] == s[i + 1]);
            assert(s.drop_first()[j] == s[j + 1]);
        }
        lemma_insert_desc_ordered(s.drop_first(), c);
        lemma_insert_desc_elems(s.drop_first(), c);
        let r = spec_insert_desc(s, c);
        assert forall|i: int, j: int|
            0 <= i < j < r.len() implies (#[trigger] r[i]).created_at
            >= (#[trigger] r[j]).created_at by {
            if i == 0 {
                let x = spec_insert_desc(s.drop_first(), c)[j - 1];
                if x == c {
                } else {
                    let k = choose|k: int|
                        0 <= k < s.drop_first().len() && s.drop_first()[k] == x;
                    assert(s[k + 1] == x);
                }
            }
        }
    }
}

/// The listing order the store promises: within the sorted rows, no row
/// precedes a more recent one.
pub proof fn lemma_sort_desc_ordered(s: Seq<CommentRecord>)
    ensures
        forall|i: int, j: int|
            0 <= i < j < spec_sort_desc(s).len() ==> (#[trigger] spec_sort_desc(s)[i]).created_at
                >= (#[trigger] spec_sort_desc(s)[j]).created_at,
    decreases s.len(),
{
    if s.len() > 0 {
        lemma_sort_desc_ordered(s.drop_last());
        lemma_insert_desc_ordered(spec_sort_desc(s.drop_last()), s.last());
    }
}

} // verus!
