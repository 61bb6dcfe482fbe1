//! Blogroll link management: plain rows with no relations.

use vstd::prelude::*;
use crate::comments::spec_page;
use crate::error::AppError;
use crate::records::{CreateLinkDto, LinkRecord, UpdateLinkDto};
use crate::store::BlogStore;
use crate::tags::spec_lex_le;

verus! {

/// Whether some link row carries `id`.
pub open spec fn spec_link_exists(links: Seq<LinkRecord>, id: i32) -> bool {
    exists|i: int| 0 <= i < links.len() && (#[trigger] links[i].id) == id
}

/// The index of the link row carrying `id`, or a negative value.
pub open spec fn spec_link_index(links: Seq<LinkRecord>, id: i32) -> int
    decreases links.len(),
{
    if links.len() == 0 {
        -1
    } else if links[0].id == id {
        0
    } else {
        let r = spec_link_index(links.drop_first(), id);
        if r < 0 {
            -1
        } else {
            r + 1
        }
    }
}

/// The link index function finds a row exactly when one exists.
pub proof fn lemma_link_index(links: Seq<LinkRecord>, id: i32)
    ensures
        spec_link_index(links, id) >= 0 <==> spec_link_exists(links, id),
        spec_link_index(links, id) >= 0 ==> spec_link_index(links, id) < links.len() && links[
            spec_link_index(links, id)
        ].id == id,
    decreases links.len(),
{
    if links.len() > 0 && links[0].id != id {
        lemma_link_index(links.drop_first(), id);
        if spec_link_exists(links, id) {
            let i = choose|i: int| 0 <= i < links.len() && (#[trigger] links[i].id) == id;
            assert(links.drop_first()[i - 1].id == id);
        }
        if spec_link_exists(links.drop_first(), id) {
            let i = choose|i: int|
                0 <= i < links.drop_first().len() && (#[trigger] links.drop_first()[i].id) == id;
            assert(links[i + 1].id == id);
        }
    }
}

proof fn lemma_link_index_prefix(links: Seq<LinkRecord>, id: i32, i: int)
    requires
        0 <= i < links.len(),
        forall|j: int| 0 <= j < i ==> (#[trigger] links[j].id) != id,
        links[i].id == id,
    ensures
        spec_link_index(links, id) == i,
    decreases i,
{
    if i > 0 {
        assert(links[0].id != id);
        assert forall|j: int| 0 <= j < i - 1 implies (#[trigger] links.drop_first()[j].id)
            != id by {
            assert(links.drop_first()[j] == links[j + 1]);
        }
        assert(links.drop_first()[i - 1] == links[i]);
        lemma_link_index_prefix(links.drop_first(), id, i - 1);
    }
}

/// Inserts a link into a list already in ascending name order.
pub open spec fn spec_insert_link_by_name(s: Seq<LinkRecord>, l: LinkRecord) -> Seq<LinkRecord>
    decreases s.len(),
{
    if s.len() == 0 {
        seq![l]
    } else if spec_lex_le(s[0].name@, l.name@) {
        seq![s[0]] + spec_insert_link_by_name(s.drop_first(), l)
    } else {
        seq![l] + s
    }
}

/// The link rows in ascending name order.
pub open spec fn spec_sort_links_by_name(s: Seq<LinkRecord>) -> Seq<LinkRecord>
    decreases s.len(),
{
    if s.len() == 0 {
        Seq::empty()
    } else {
        spec_insert_link_by_name(spec_sort_links_by_name(s.drop_last()), s.last())
    }
}

proof fn lemma_insert_link_by_name_at(s: Seq<LinkRecord>, l: LinkRecord, p: int)
    requires
        0 <= p <= s.len(),
        forall|j: int| 0 <= j < p ==> spec_lex_le((#[trigger] s[j]).name@, l.name@),
        p < s.len() ==> !spec_lex_le(s[p].name@, l.name@),
    ensures
        spec_insert_link_by_name(s, l) == s.subrange(0, p) + seq![l] + s.subrange(
            p,
            s.len() as int,
        ),
    decreases p,
{
    if p == 0 {
        if s.len() == 0 {
            assert(spec_insert_link_by_name(s, l) =~= s.subrange(0, 0) + seq![l] + s.subrange(
                0,
                s.len() as int,
            ));
        } else {
            assert(spec_insert_link_by_name(s, l) == seq![l] + s);
            assert(seq![l] + s =~= s.subrange(0, 0) + seq![l] + s.subrange(0, s.len() as int));
        }
    } else {
        assert(spec_lex_le(s[0].name@, l.name@));
        assert forall|j: int| 0 <= j < p - 1 implies spec_lex_le(
            (#[trigger] s.drop_first()[j]).name@,
            l.name@,
        ) by {
            assert(s.drop_first()[j] == s[j + 1]);
        }
        if p - 1 < s.drop_first().len() {
            assert(s.drop_first()[p - 1] == s[p]);
        }
        lemma_insert_link_by_name_at(s.drop_first(), l, p - 1);
        assert(seq![s[0]] + (s.drop_first().subrange(0, p - 1) + seq![l]
            + s.drop_first().subrange(p - 1, s.drop_first().len() as int)) =~= s.subrange(0, p)
            + seq![l] + s.subrange(p, s.len() as int));
    }
}

proof fn lemma_sort_links_len(s: Seq<LinkRecord>)
    ensures
        spec_sort_links_by_name(s).len() == s.len(),
    decreases s.len(),
{
    if s.len() > 0 {
        lemma_sort_links_len(s.drop_last());
        lemma_insert_link_len(spec_sort_links_by_name(s.drop_last()), s.last());
    }
}

proof fn lemma_insert_link_len(s: Seq<LinkRecord>, l: LinkRecord)
    ensures
        spec_insert_link_by_name(s, l).len() == s.len() + 1,
    decreases s.len(),
{
    if s.len() > 0 && spec_lex_le(s[0].name@, l.name@) {
        lemma_insert_link_len(s.drop_first(), l);
    }
}

impl BlogStore {
    /// Creates a link row from the caller's values and time.
    pub fn create_link(&mut self, dto: CreateLinkDto, now: u64) -> (r: LinkRecord)
        requires
            old(self).wf(),
            old(self).next_link_id < i32::MAX,
        ensures
            final(self).wf(),
            final(self).same_posts(*old(self)),
            final(self).same_tags(*old(self)),
            final(self).same_assocs(*old(self)),
            final(self).same_comments(*old(self)),
            r.id == old(self).next_link_id,
            r.name@ == dto.name@,
            r.url@ == dto.url@,
            (match r.description {
                Some(d) => dto.description is Some && d@ == dto.description->Some_0@,
                None => dto.description is None,
            }),
            r.created_at == now,
            r.updated_at == now,
            final(self).links@ == old(self).links@.push(r),
            final(self).next_link_id == old(self).next_link_id + 1,
    {
        let l = LinkRecord {
            id: self.next_link_id,
            name: dto.name,
            url: dto.url,
            description: dto.description,
            created_at: now,
            updated_at: now,
        };
        let out = l.clone();
        self.links.push(l);
        self.next_link_id = self.next_link_id + 1;
        out
    }

    /// All links in ascending name order, paginated, with the unpaged
    /// total.
    pub fn list_links(&self, page: u64, limit: u64) -> (r: (Vec<LinkRecord>, u64))
        requires
            page >= 1,
            limit >= 1,
            (page - 1) * limit + limit <= u64::MAX,
        ensures
            r.1 == self.links@.len(),
            r.0@ == spec_page(spec_sort_links_by_name(self.links@), page as int, limit as int),
    {
        let mut sorted: Vec<LinkRecord> = Vec::new();
        let mut i: usize = 0;
        proof {
            assert(self.links@.take(0) =~= Seq::<LinkRecord>::empty());
        }
        while i < self.links.len()
            invariant
                i <= self.links@.len(),
                sorted@ == spec_sort_links_by_name(self.links@.take(i as int)),
            decreases self.links@.len() - i,
        {
            let l = self.links[i].clone();
            let mut pos: usize = 0;
            while pos < sorted.len() && crate::tags::lex_le(
                sorted[pos].name.as_str(),
                l.name.as_str(),
            )
                invariant
                    pos <= sorted@.len(),
                    l == self.links@[i as int],
                    forall|j: int|
                        0 <= j < pos ==> spec_lex_le((#[trigger] sorted@[j]).name@, l.name@),
                decreases sorted@.len() - pos,
            {
                pos = pos + 1;
            }
            let ghost before = sorted@;
            sorted.insert(pos, l);
            proof {
                lemma_insert_link_by_name_at(before, l, pos as int);
                assert(sorted@ =~= before.subrange(0, pos as int) + seq![l] + before.subrange(
                    pos as int,
                    before.len() as int,
                ));
                assert(self.links@.take(i + 1 as int).drop_last() =~= self.links@.take(i as int));
                assert(self.links@.take(i + 1 as int).last() == self.links@[i as int]);
            }
            i = i + 1;
        }
        proof {
            assert(self.links@.take(self.links@.len() as int) =~= self.links@);
            lemma_sort_links_len(self.links@);
        }
        let total = self.links.len() as u64;
        let start64: u64 = (page - 1) * limit;
        let mut items: Vec<LinkRecord> = Vec::new();
        if start64 >= sorted.len() as u64 {
            proof {
                assert((page - 1) * limit >= spec_sort_links_by_name(self.links@).len());
            }
            return (items, total);
        }
        let start: usize = start64 as usize;
        let end: usize = if start64 + limit <= sorted.len() as u64 {
            (start64 + limit) as usize
        } else {
            sorted.len()
        };
        let mut k: usize = start;
        while k < end
            invariant
                start <= k <= end <= sorted@.len(),
                items@ == sorted@.subrange(start as int, k as int),
            decreases end - k,
        {
            items.push(sorted[k].clone());
            proof {
                assert(items@ =~= sorted@.subrange(start as int, k + 1 as int));
            }
            k = k + 1;
        }
        proof {
            assert(start as int == (page as int - 1) * limit as int);
        }
        (items, total)
    }

    /// The index of the link row carrying `id`.
    fn find_link_index(&self, id: i32) -> (r: Option<usize>)
        ensures
            match r {
                Some(i) => i as int == spec_link_index(self.links@, id) && i < self.links@.len()
                    && self.links@[i as int].id == id,
                None => !spec_link_exists(self.links@, id),
            },
            r is Some <==> spec_link_exists(self.links@, id),
    {
        proof {
            lemma_link_index(self.links@, id);
        }
        let mut i: usize = 0;
        while i < self.links.len()
            invariant
                i <= self.links@.len(),
                forall|j: int| 0 <= j < i ==> (#[trigger] self.links@[j].id) != id,
                spec_link_index(self.links@, id) >= 0 ==> spec_link_index(self.links@, id) >= i,
            decreases self.links@.len() - i,
        {
            proof {
                lemma_link_index(self.links@, id);
                if self.links@[i as int].id == id {
                    lemma_link_index_prefix(self.links@, id, i as int);
                }
            }
            if self.links[i].id == id {
                return Some(i);
            }
            i = i + 1;
        }
        proof {
            if spec_link_exists(self.links@, id) {
                let j = choose|j: int|
                    0 <= j < self.links@.len() && (#[trigger] self.links@[j].id) == id;
            }
        }
        None
    }

    /// Fetches a link row; an absent identifier surfaces as not found.
    pub fn get_link(&self, id: i32) -> (r: Result<LinkRecord, AppError>)
        ensures
            r is Ok <==> spec_link_exists(self.links@, id),
            match r {
                Ok(l) => l == self.links@[spec_link_index(self.links@, id)] && l.id == id,
                Err(e) => e is NotFound,
            },
    {
        match self.find_link_index(id) {
            Some(i) => {
                let l = self.links[i].clone();
                proof {
                    assert(self.links@.contains(self.links@[i as int]));
                }
                Ok(l)
            },
            None => Err(AppError::NotFound(String::from_str("link does not exist"))),
        }
    }

    /// Patches a link: name and URL only when supplied, while the
    /// description is always replaced by the patch value, clearing it
    /// when the patch leaves it out.
    pub fn update_link(&mut self, id: i32, dto: UpdateLinkDto, now: u64) -> (r: Result<
        LinkRecord,
        AppError,
    >)
        requires
            old(self).wf(),
        ensures
            final(self).wf(),
            final(self).same_posts(*old(self)),
            final(self).same_tags(*old(self)),
            final(self).same_assocs(*old(self)),
            final(self).same_comments(*old(self)),
            r is Ok <==> spec_link_exists(old(self).links@, id),
            match r {
                Ok(l) => ({
                    let idx = spec_link_index(old(self).links@, id);
                    let l0 = old(self).links@[idx];
                    &&& 0 <= idx < old(self).links@.len()
                    &&& l.id == id
                    &&& l.name@ == (match dto.name {
                        Some(n) => n@,
                        None => l0.name@,
                    })
                    &&& l.url@ == (match dto.url {
                        Some(u) => u@,
                        None => l0.url@,
                    })
                    &&& (match l.description {
                        Some(d) => dto.description is Some && d@ == dto.description->Some_0@,
                        None => dto.description is None,
                    })
                    &&& l.created_at == l0.created_at
                    &&& l.updated_at == now
                    &&& final(self).links@ == old(self).links@.update(idx, l)
                    &&& final(self).next_link_id == old(self).next_link_id
                }),
                Err(e) => e is NotFound && final(self).unchanged(*old(self)),
            },
    {
        let idx = match self.find_link_index(id) {
            Some(i) => i,
            None => {
                return Err(AppError::NotFound(String::from_str("link does not exist")));
            },
        };
        let l0 = self.links[idx].clone();
        let new_name = match dto.name {
            Some(n) => n,
            None => l0.name,
        };
        let new_url = match dto.url {
            Some(u) => u,
            None => l0.url,
        };
        let l = LinkRecord {
            id,
            name: new_name,
            url: new_url,
            description: dto.description,
            created_at: l0.created_at,
            updated_at: now,
        };
        let out = l.clone();
        self.links[idx] = l;
        proof {
            let l1 = self.links@;
            let lold = old(self).links@;
            assert forall|i: int| 0 <= i < l1.len() implies (#[trigger] l1[i].id)
                == lold[i].id by {
                if i != idx {
                    assert(l1[i] == lold[i]);
                }
            }
        }
        Ok(out)
    }

    /// Deletes a link row.
    pub fn delete_link(&mut self, id: i32) -> (r: Result<(), AppError>)
        requires
            old(self).wf(),
        ensures
            final(self).wf(),
            final(self).same_posts(*old(self)),
            final(self).same_tags(*old(self)),
            final(self).same_assocs(*old(self)),
            final(self).same_comments(*old(self)),
            r is Ok <==> spec_link_exists(old(self).links@, id),
            match r {
                Ok(u) => {
                    &&& final(self).links@ == old(self).links@.remove(
                        spec_link_index(old(self).links@, id),
                    )
                    &&& final(self).next_link_id == old(self).next_link_id
                },
                Err(e) => e is NotFound && final(self).unchanged(*old(self)),
            },
    {
        let idx = match self.find_link_index(id) {
            Some(i) => i,
            None => {
                return Err(AppError::NotFound(String::from_str("link does not exist")));
            },
        };
        let ghost l0 = self.links@;
        self.links.remove(idx);
        proof {
            let l1 = self.links@;
            assert forall|i: int| 0 <= i < l1.len() implies #[trigger] l1[i] == (if i < idx {
                l0[i]
            } else {
                l0[i + 1]
            }) by {}
        }
        Ok(())
    }
}

} // verus!
