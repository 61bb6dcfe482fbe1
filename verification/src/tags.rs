//! Tag management: canonical find-or-create, listing in name order and
//! deletion with cascading association cleanup.

use vstd::prelude::*;
use crate::error::AppError;
use crate::records::TagRecord;
use crate::store::{
    lemma_filter_distinct, lemma_filter_members, spec_find_tag_by_name, spec_tag_exists,
    spec_tag_slug_taken, BlogStore,
};
use crate::slug::spec_slugify;
use crate::text::str_eq;

verus! {

/// Lexicographic order on character sequences by scalar value, the
/// store's binary collation.
pub open spec fn spec_lex_le(a: Seq<char>, b: Seq<char>) -> bool
    decreases a.len(),
{
    if a.len() == 0 {
        true
    } else if b.len() == 0 {
        false
    } else if (a[0] as u32) < (b[0] as u32) {
        true
    } else if (a[0] as u32) > (b[0] as u32) {
        false
    } else {
        spec_lex_le(a.drop_first(), b.drop_first())
    }
}

/// The lexicographic order is total.
pub proof fn lemma_lex_le_total(a: Seq<char>, b: Seq<char>)
    ensures
        spec_lex_le(a, b) || spec_lex_le(b, a),
    decreases a.len(),
{
    if a.len() > 0 && b.len() > 0 && (a[0] as u32) == (b[0] as u32) {
        lemma_lex_le_total(a.drop_first(), b.drop_first());
    }
}

/// The lexicographic order is transitive.
pub proof fn lemma_lex_le_trans(a: Seq<char>, b: Seq<char>, c: Seq<char>)
    requires
        spec_lex_le(a, b),
        spec_lex_le(b, c),
    ensures
        spec_lex_le(a, c),
    decreases a.len(),
{
    if a.len() > 0 && b.len() > 0 && c.len() > 0 && (a[0] as u32) == (b[0] as u32) && (b[0] as u32)
        == (c[0] as u32) {
        lemma_lex_le_trans(a.drop_first(), b.drop_first(), c.drop_first());
    }
}

/// Inserts a tag into a list already in ascending name order, after
/// every entry whose name does not come later.
pub open spec fn spec_insert_by_name(s: Seq<TagRecord>, t: TagRecord) -> Seq<TagRecord>
    decreases s.len(),
{
    if s.len() == 0 {
        seq![t]
    } else if spec_lex_le(s[0].name@, t.name@) {
        seq![s[0]] + spec_insert_by_name(s.drop_first(), t)
    } else {
        seq![t] + s
    }
}

/// The tag rows in ascending name order: the model of the store's
/// ordered tag listing.
pub open spec fn spec_sort_tags_by_name(s: Seq<TagRecord>) -> Seq<TagRecord>
    decreases s.len(),
{
    if s.len() == 0 {
        Seq::empty()
    } else {
        spec_insert_by_name(spec_sort_tags_by_name(s.drop_last()), s.last())
    }
}

/// Whether `a` does not come after `b` in lexicographic order.
pub(crate) fn lex_le(a: &str, b: &str) -> (r: bool)
    ensures
        r == spec_lex_le(a@, b@),
{
    let ca = crate::text::chars_of(a);
    let cb = crate::text::chars_of(b);
    let mut i: usize = 0;
    proof {
        assert(a@.skip(0) =~= a@);
        assert(b@.skip(0) =~= b@);
    }
    while i < ca.len() && i < cb.len()
        invariant
            ca@ == a@,
            cb@ == b@,
            i <= ca@.len(),
            i <= cb@.len(),
            forall|j: int| 0 <= j < i ==> (#[trigger] a@[j]) == b@[j],
            spec_lex_le(a@, b@) == spec_lex_le(a@.skip(i as int), b@.skip(i as int)),
        decreases ca@.len() - i,
    {
        proof {
            assert(a@.skip(i as int)[0] == a@[i as int]);
            assert(b@.skip(i as int)[0] == b@[i as int]);
            assert(a@.skip(i as int).drop_first() =~= a@.skip(i + 1 as int));
            assert(b@.skip(i as int).drop_first() =~= b@.skip(i + 1 as int));
        }
        let x = ca[i] as u32;
        let y = cb[i] as u32;
        if x < y {
            return true;
        }
        if x > y {
            return false;
        }
        proof {
            vstd::utf8::char_u32_cast(a@[i as int], x);
            vstd::utf8::char_u32_cast(b@[i as int], y);
        }
        i = i + 1;
    }
    proof {
        if i >= ca@.len() {
            assert(a@.skip(i as int) =~= Seq::<char>::empty());
        } else {
            assert(b@.skip(i as int) =~= Seq::<char>::empty());
            assert(a@.skip(i as int).len() > 0);
        }
    }
    i >= ca.len()
}

/// The index of the tag row carrying `id`, if any.
pub open spec fn spec_tag_index(tags: Seq<TagRecord>, id: i32) -> int
    decreases tags.len(),
{
    if tags.len() == 0 {
        -1
    } else if tags[0].id == id {
        0
    } else {
        let r = spec_tag_index(tags.drop_first(), id);
        if r < 0 {
            -1
        } else {
            r + 1
        }
    }
}

/// The tag index function finds a row exactly when one exists.
pub proof fn lemma_tag_index(tags: Seq<TagRecord>, id: i32)
    ensures
        spec_tag_index(tags, id) >= 0 <==> spec_tag_exists(tags, id),
        spec_tag_index(tags, id) >= 0 ==> spec_tag_index(tags, id) < tags.len() && tags[
            spec_tag_index(tags, id)
        ].id == id,
    decreases tags.len(),
{
    if tags.len() > 0 && tags[0].id != id {
        lemma_tag_index(tags.drop_first(), id);
        if spec_tag_exists(tags, id) {
            let i = choose|i: int| 0 <= i < tags.len() && (#[trigger] tags[i].id) == id;
            assert(tags.drop_first()[i - 1].id == id);
        }
        if spec_tag_exists(tags.drop_first(), id) {
            let i = choose|i: int|
                0 <= i < tags.drop_first().len() && (#[trigger] tags.drop_first()[i].id) == id;
            assert(tags[i + 1].id == id);
        }
    }
}

/// The tag index function points at the first matching row.
proof fn lemma_tag_index_prefix(tags: Seq<TagRecord>, id: i32, i: int)
    requires
        0 <= i < tags.len(),
        forall|j: int| 0 <= j < i ==> (#[trigger] tags[j].id) != id,
        tags[i].id == id,
    ensures
        spec_tag_index(tags, id) == i,
    decreases i,
{
    if i > 0 {
        assert(tags[0].id != id);
        assert forall|j: int| 0 <= j < i - 1 implies (#[trigger] tags.drop_first()[j].id)
            != id by {
            assert(tags.drop_first()[j] == tags[j + 1]);
        }
        assert(tags.drop_first()[i - 1] == tags[i]);
        lemma_tag_index_prefix(tags.drop_first(), id, i - 1);
    }
}

/// Inserting at the first position whose entry's name comes later keeps
/// the specified order.
proof fn lemma_insert_by_name_at(s: Seq<TagRecord>, t: TagRecord, p: int)
    requires
        0 <= p <= s.len(),
        forall|j: int| 0 <= j < p ==> spec_lex_le((#[trigger] s[j]).name@, t.name@),
        p < s.len() ==> !spec_lex_le(s[p].name@, t.name@),
    ensures
        spec_insert_by_name(s, t) == s.subrange(0, p) + seq![t] + s.subrange(p, s.len() as int),
    decreases p,
{
    if p == 0 {
        if s.len() == 0 {
            assert(spec_insert_by_name(s, t) =~= s.subrange(0, 0) + seq![t] + s.subrange(
                0,
                s.len() as int,
            ));
        } else {
            assert(spec_insert_by_name(s, t) == seq![t] + s);
            assert(seq![t] + s =~= s.subrange(0, 0) + seq![t] + s.subrange(0, s.len() as int));
        }
    } else {
        assert(spec_lex_le(s[0].name@, t.name@));
        assert forall|j: int| 0 <= j < p - 1 implies spec_lex_le(
            (#[trigger] s.drop_first()[j]).name@,
            t.name@,
        ) by {
            assert(s.drop_first()[j] == s[j + 1]);
        }
        if p - 1 < s.drop_first().len() {
            assert(s.drop_first()[p - 1] == s[p]);
        }
        lemma_insert_by_name_at(s.drop_first(), t, p - 1);
        assert(seq![s[0]] + (s.drop_first().subrange(0, p - 1) + seq![t]
            + s.drop_first().subrange(p - 1, s.drop_first().len() as int)) =~= s.subrange(0, p)
            + seq![t] + s.subrange(p, s.len() as int));
    }
}

/// Every row of an insertion result is the inserted row or a row of the
/// original list.
proof fn lemma_insert_by_name_elems(s: Seq<TagRecord>, t: TagRecord)
    ensures
        forall|k: int|
            0 <= k < spec_insert_by_name(s, t).len() ==> (#[trigger] spec_insert_by_name(
                s,
                t,
            )[k]) == t || s.contains(spec_insert_by_name(s, t)[k]),
    decreases s.len(),
{
    if s.len() > 0 && spec_lex_le(s[0].name@, t.name@) {
        lemma_insert_by_name_elems(s.drop_first(), t);
        assert forall|k: int|
            0 <= k < spec_insert_by_name(s, t).len() implies (#[trigger] spec_insert_by_name(
            s,
            t,
        )[k]) == t || s.contains(spec_insert_by_name(s, t)[k]) by {
            if k > 0 {
                let x = spec_insert_by_name(s.drop_first(), t)[k - 1];
                if x != t {
                    let j = choose|j: int|
                        0 <= j < s.drop_first().len() && s.drop_first()[j] == x;
                    assert(s[j + 1] == x);
                }
            } else {
                assert(s[0] == spec_insert_by_name(s, t)[0]);
            }
        }
    }
}

/// Inserting into a name-ordered list keeps it name-ordered.
proof fn lemma_insert_by_name_ordered(s: Seq<TagRecord>, t: TagRecord)
    requires
        forall|i: int, j: int|
            0 <= i < j < s.len() ==> spec_lex_le((#[trigger] s[i]).name@, (#[trigger] s[j]).name@),
    ensures
        forall|i: int, j: int|
            0 <= i < j < spec_insert_by_name(s, t).len() ==> spec_lex_le(
                (#[trigger] spec_insert_by_name(s, t)[i]).name@,
                (#[trigger] spec_insert_by_name(s, t)[j]).name@,
            ),
    decreases s.len(),
{
    if s.len() == 0 {
    } else if spec_lex_le(s[0].name@, t.name@) {
        assert forall|i: int, j: int|
            0 <= i < j < s.drop_first().len() implies spec_lex_le(
            (#[trigger] s.drop_first()[i]).name@,
            (#[trigger] s.drop_first()[j]).name@,
        ) by {
            assert(s.drop_first()[i] == s[i + 1]);
            assert(s.drop_first()[j] == s[j + 1]);
        }
        lemma_insert_by_name_ordered(s.drop_first(), t);
        lemma_insert_by_name_elems(s.drop_first(), t);
        let r = spec_insert_by_name(s, t);
        assert forall|i: int, j: int|
            0 <= i < j < r.len() implies spec_lex_le(
            (#[trigger] r[i]).name@,
            (#[trigger] r[j]).name@,
        ) by {
            if i == 0 {
                let x = spec_insert_by_name(s.drop_first(), t)[j - 1];
                if x == t {
                } else {
                    let k = choose|k: int|
                        0 <= k < s.drop_first().len() && s.drop_first()[k] == x;
                    assert(s[k + 1] == x);
                }
            }
        }
    } else {
        lemma_lex_le_total(s[0].name@, t.name@);
        let r = spec_insert_by_name(s, t);
        assert forall|i: int, j: int|
            0 <= i < j < r.len() implies spec_lex_le(
            (#[trigger] r[i]).name@,
            (#[trigger] r[j]).name@,
        ) by {
            if i == 0 && j >= 1 {
                assert(r[j] == s[j - 1]);
                if j - 1 > 0 {
                    lemma_lex_le_trans(t.name@, s[0].name@, s[j - 1].name@);
                }
            }
        }
    }
}

/// The listing order the store promises: the listed tags come in
/// ascending name order.
pub proof fn lemma_sort_tags_ordered(s: Seq<TagRecord>)
    ensures
        forall|i: int, j: int|
            0 <= i < j < spec_sort_tags_by_name(s).len() ==> spec_lex_le(
                (#[trigger] spec_sort_tags_by_name(s)[i]).name@,
                (#[trigger] spec_sort_tags_by_name(s)[j]).name@,
            ),
    decreases s.len(),
{
    if s.len() > 0 {
        lemma_sort_tags_ordered(s.drop_last());
        lemma_insert_by_name_ordered(spec_sort_tags_by_name(s.drop_last()), s.last());
    }
}

impl BlogStore {
    /// Creates a tag, or returns the existing one of the same name: tag
    /// identity is canonical per name. A derived slug already owned by
    /// another tag surfaces as a conflict and changes nothing.
    pub fn create_tag(&mut self, name: &str, now: u64) -> (r: Result<TagRecord, AppError>)
        requires
            old(self).wf(),
            old(self).next_tag_id < i32::MAX,
        ensures
            final(self).wf(),
            match r {
                Ok(t) => {
                    match spec_find_tag_by_name(old(self).tags@, name@) {
                        Some(t0) => t == t0 && final(self).unchanged(*old(self)),
                        None => {
                            &&& t.id == old(self).next_tag_id
                            &&& t.name@ == name@
                            &&& t.slug@ == spec_slugify(name@)
                            &&& t.created_at == now
                            &&& final(self).tags@ == old(self).tags@.push(t)
                            &&& final(self).next_tag_id == old(self).next_tag_id + 1
                            &&& final(self).same_posts(*old(self))
                            &&& final(self).same_assocs(*old(self))
                            &&& final(self).same_comments(*old(self))
                            &&& final(self).same_links(*old(self))
                        },
                    }
                },
                Err(e) => e is Conflict && final(self).unchanged(*old(self)),
            },
            r is Err <==> (spec_find_tag_by_name(old(self).tags@, name@) is None
                && spec_tag_slug_taken(old(self).tags@, spec_slugify(name@))),
    {
        self.find_or_create_tag(name, now)
    }

    /// All tags in ascending name order.
    pub fn list_tags(&self) -> (r: Vec<TagRecord>)
        ensures
            r@ == spec_sort_tags_by_name(self.tags@),
    {
        let mut r: Vec<TagRecord> = Vec::new();
        let mut i: usize = 0;
        proof {
            assert(self.tags@.take(0) =~= Seq::<TagRecord>::empty());
        }
        while i < self.tags.len()
            invariant
                i <= self.tags@.len(),
                r@ == spec_sort_tags_by_name(self.tags@.take(i as int)),
            decreases self.tags@.len() - i,
        {
            let t = self.tags[i].clone();
            let mut pos: usize = 0;
            while pos < r.len() && lex_le(r[pos].name.as_str(), t.name.as_str())
                invariant
                    pos <= r@.len(),
                    t == self.tags@[i as int],
                    forall|j: int|
                        0 <= j < pos ==> spec_lex_le((#[trigger] r@[j]).name@, t.name@),
                decreases r@.len() - pos,
            {
                pos = pos + 1;
            }
            let ghost before = r@;
            r.insert(pos, t);
            proof {
                lemma_insert_by_name_at(before, t, pos as int);
                assert(r@ =~= before.subrange(0, pos as int) + seq![t] + before.subrange(
                    pos as int,
                    before.len() as int,
                ));
                assert(self.tags@.take(i + 1 as int).drop_last() =~= self.tags@.take(i as int));
                assert(self.tags@.take(i + 1 as int).last() == self.tags@[i as int]);
            }
            i = i + 1;
        }
        proof {
            assert(self.tags@.take(self.tags@.len() as int) =~= self.tags@);
        }
        r
    }

    /// The index of the tag row carrying `id`.
    pub(crate) fn find_tag_row(&self, id: i32) -> (r: Option<usize>)
        ensures
            match r {
                Some(i) => i as int == spec_tag_index(self.tags@, id) && i < self.tags@.len()
                    && self.tags@[i as int].id == id,
                None => !spec_tag_exists(self.tags@, id),
            },
            r is Some <==> spec_tag_exists(self.tags@, id),
    {
        proof {
            lemma_tag_index(self.tags@, id);
        }
        let mut i: usize = 0;
        while i < self.tags.len()
            invariant
                i <= self.tags@.len(),
                forall|j: int| 0 <= j < i ==> (#[trigger] self.tags@[j].id) != id,
                spec_tag_index(self.tags@, id) >= 0 ==> spec_tag_index(self.tags@, id) >= i,
            decreases self.tags@.len() - i,
        {
            proof {
                lemma_tag_index(self.tags@, id);
                if self.tags@[i as int].id == id {
                    lemma_tag_index_prefix(self.tags@, id, i as int);
                }
            }
            if self.tags[i].id == id {
                return Some(i);
            }
            i = i + 1;
        }
        proof {
            if spec_tag_exists(self.tags@, id) {
                let j = choose|j: int|
                    0 <= j < self.tags@.len() && (#[trigger] self.tags@[j].id) == id;
            }
        }
        None
    }

    /// Fetches a tag; an absent identifier surfaces as not found.
    pub fn get_tag(&self, id: i32) -> (r: Result<TagRecord, AppError>)
        ensures
            r is Ok <==> spec_tag_exists(self.tags@, id),
            match r {
                Ok(t) => t == self.tags@[spec_tag_index(self.tags@, id)] && t.id == id,
                Err(e) => e is NotFound,
            },
    {
        match self.find_tag_row(id) {
            Some(i) => {
                let t = self.tags[i].clone();
                proof {
                    assert(self.tags@.contains(self.tags@[i as int]));
                }
                Ok(t)
            },
            None => Err(AppError::NotFound(String::from_str("tag does not exist"))),
        }
    }

    /// Fetches a tag by its slug; an absent slug surfaces as not found.
    pub fn get_tag_by_slug(&self, slug: &str) -> (r: Result<TagRecord, AppError>)
        ensures
            r is Ok <==> spec_tag_slug_taken(self.tags@, slug@),
            match r {
                Ok(t) => (exists|i: int|
                    0 <= i < self.tags@.len() && (#[trigger] self.tags@[i]) == t
                        && self.tags@[i].slug@ == slug@ && (forall|j: int|
                        0 <= j < i ==> (#[trigger] self.tags@[j].slug@) != slug@)) && t.slug@
                    == slug@,
                Err(e) => e is NotFound,
            },
    {
        let mut i: usize = 0;
        while i < self.tags.len()
            invariant
                i <= self.tags@.len(),
                forall|j: int| 0 <= j < i ==> (#[trigger] self.tags@[j].slug@) != slug@,
            decreases self.tags@.len() - i,
        {
            if str_eq(self.tags[i].slug.as_str(), slug) {
                let t = self.tags[i].clone();
                proof {
                    assert(self.tags@.contains(self.tags@[i as int]));
                }
                return Ok(t);
            }
            i = i + 1;
        }
        Err(AppError::NotFound(String::from_str("tag does not exist")))
    }

    /// Deletes a tag; its associations cascade away with it, posts and
    /// comments survive.
    pub fn delete_tag(&mut self, id: i32) -> (r: Result<(), AppError>)
        requires
            old(self).wf(),
        ensures
            final(self).wf(),
            final(self).same_posts(*old(self)),
            final(self).same_comments(*old(self)),
            final(self).same_links(*old(self)),
            r is Ok <==> spec_tag_exists(old(self).tags@, id),
            match r {
                Ok(u) => {
                    &&& final(self).tags@ == old(self).tags@.remove(
                        spec_tag_index(old(self).tags@, id),
                    )
                    &&& final(self).next_tag_id == old(self).next_tag_id
                    &&& final(self).post_tags@ == old(self).post_tags@.filter(
                        spec_keeps_other_tags(id),
                    )
                },
                Err(e) => e is NotFound && final(self).unchanged(*old(self)),
            },
    {
        let idx = match self.find_tag_row(id) {
            Some(i) => i,
            None => {
                return Err(AppError::NotFound(String::from_str("tag does not exist")));
            },
        };
        let ghost tags0 = self.tags@;
        self.tags.remove(idx);
        let mut kept: Vec<crate::records::PostTagRecord> = Vec::new();
        let mut i: usize = 0;
        proof {
            reveal(Seq::filter);
        }
        while i < self.post_tags.len()
            invariant
                i <= self.post_tags@.len(),
                kept@ == self.post_tags@.take(i as int).filter(spec_keeps_other_tags(id)),
            decreases self.post_tags@.len() - i,
        {
            proof {
                reveal(Seq::filter);
                assert(self.post_tags@.take(i + 1 as int).drop_last() =~= self.post_tags@.take(
                    i as int,
                ));
                assert(self.post_tags@.take(i + 1 as int).last() == self.post_tags@[i as int]);
            }
            let pt = self.post_tags[i];
            if pt.tag_id != id {
                kept.push(pt);
            }
            i = i + 1;
        }
        proof {
            assert(self.post_tags@.take(self.post_tags@.len() as int) =~= self.post_tags@);
        }
        self.post_tags = kept;
        proof {
            let tags1 = self.tags@;
            assert forall|j: int| 0 <= j < tags1.len() implies #[trigger] tags1[j] == (if j < idx {
                tags0[j]
            } else {
                tags0[j + 1]
            }) by {}
            lemma_filter_members(old(self).post_tags@, spec_keeps_other_tags(id));
            lemma_filter_distinct(old(self).post_tags@, spec_keeps_other_tags(id));
            assert forall|i: int|
                0 <= i < self.post_tags@.len() implies crate::store::spec_post_exists(
                self.posts@,
                (#[trigger] self.post_tags@[i]).post_id,
            ) && spec_tag_exists(tags1, self.post_tags@[i].tag_id) by {
                assert(self.post_tags@.contains(self.post_tags@[i]));
                old(self).post_tags@.lemma_filter_pred(spec_keeps_other_tags(id), i);
                let k = choose|k: int|
                    0 <= k < old(self).post_tags@.len() && old(self).post_tags@[k]
                        == self.post_tags@[i];
                assert(spec_tag_exists(tags0, old(self).post_tags@[k].tag_id));
                let p = choose|p: int|
                    0 <= p < tags0.len() && (#[trigger] tags0[p].id)
                        == self.post_tags@[i].tag_id;
                assert(p != idx);
                if p < idx {
                    assert(tags1[p].id == self.post_tags@[i].tag_id);
                } else {
                    assert(tags1[p - 1].id == self.post_tags@[i].tag_id);
                }
                assert(crate::store::spec_post_exists(
                    old(self).posts@,
                    old(self).post_tags@[k].post_id,
                ));
            }
            assert(old(self).post_tags@.filter(spec_keeps_other_tags(id)).len()
                <= old(self).post_tags@.len()) by {
                old(self).post_tags@.lemma_filter_len(spec_keeps_other_tags(id));
            }
        }
        Ok(())
    }
}

/// The association rows a tag deletion keeps: those of every other tag.
pub open spec fn spec_keeps_other_tags(tag_id: i32) -> spec_fn(
    crate::records::PostTagRecord,
) -> bool {
    |pt: crate::records::PostTagRecord| pt.tag_id != tag_id
}

} // verus!
