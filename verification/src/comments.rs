//! The user's comments on recordings, by file name.

use crate::text::{is_blank, trimmed};
use vstd::prelude::*;

verus! {

/// A comment on a file.
pub struct Comment {
    pub file: String,
    pub text: String,
}

/// Comments by file name, one for a file at most.
pub struct Comments {
    entries: Vec<Comment>,
}

/// Comments by file name, the last one of a file if there are several.
pub open spec fn by_file(entries: Seq<Comment>) -> Map<Seq<char>, Seq<char>>
    decreases entries.len(),
{
    if entries.len() == 0 {
        Map::empty()
    } else {
        by_file(entries.drop_last()).insert(entries.last().file@, entries.last().text@)
    }
}

/// No file twice.
pub open spec fn files_distinct(entries: Seq<Comment>) -> bool {
    forall|i: int, j: int|
        0 <= i < j < entries.len() ==> (#[trigger] entries[i]).file@ != (#[trigger] entries[j]).file@
}

proof fn lemma_by_file(entries: Seq<Comment>)
    requires
        files_distinct(entries),
    ensures
        forall|i: int|
            0 <= i < entries.len() ==> by_file(entries).dom().contains(
                (#[trigger] entries[i]).file@,
            ) && by_file(entries)[entries[i].file@] == entries[i].text@,
        forall|f: Seq<char>| #[trigger]
            by_file(entries).dom().contains(f) ==> exists|i: int|
                0 <= i < entries.len() && (#[trigger] entries[i]).file@ == f,
    decreases entries.len(),
{
    if entries.len() > 0 {
        let front = entries.drop_last();
        assert forall|i: int, j: int| 0 <= i < j < front.len() implies (#[trigger] front[i]).file@
            != (#[trigger] front[j]).file@ by {
            assert(entries[i].file@ != entries[j].file@);
        }
        lemma_by_file(front);
        assert forall|i: int| 0 <= i < entries.len() implies by_file(entries).dom().contains(
            (#[trigger] entries[i]).file@,
        ) && by_file(entries)[entries[i].file@] == entries[i].text@ by {
            if i < front.len() {
                assert(front[i] == entries[i]);
                assert(entries[i].file@ != entries[entries.len() - 1].file@);
            }
        }
        assert forall|f: Seq<char>| #[trigger] by_file(entries).dom().contains(f) implies exists|
            i: int,
        | 0 <= i < entries.len() && (#[trigger] entries[i]).file@ == f by {
            if f == entries.last().file@ {
                assert(entries[entries.len() - 1].file@ == f);
            } else {
                let i = choose|i: int| 0 <= i < front.len() && (#[trigger] front[i]).file@ == f;
                assert(entries[i].file@ == f);
            }
        }
    }
}

/// Whether entries say of a file what a map says.
spec fn agrees(entries: Seq<Comment>, m: Map<Seq<char>, Seq<char>>) -> bool {
    &&& forall|i: int|
        0 <= i < entries.len() ==> m.dom().contains((#[trigger] entries[i]).file@)
            && m[entries[i].file@] == entries[i].text@
    &&& forall|f: Seq<char>| #[trigger]
        m.dom().contains(f) ==> exists|i: int|
            0 <= i < entries.len() && (#[trigger] entries[i]).file@ == f
}

proof fn lemma_agreeing(entries: Seq<Comment>, m: Map<Seq<char>, Seq<char>>)
    requires
        files_distinct(entries),
        agrees(entries, m),
    ensures
        by_file(entries) == m,
{
    lemma_by_file(entries);
    assert forall|f: Seq<char>|
        by_file(entries).dom().contains(f) <==> m.dom().contains(f) by {}
    assert forall|f: Seq<char>| m.dom().contains(f) implies by_file(entries)[f] == m[f] by {
        let i = choose|i: int| 0 <= i < entries.len() && (#[trigger] entries[i]).file@ == f;
        assert(by_file(entries)[entries[i].file@] == entries[i].text@);
    }
    assert(by_file(entries) =~= m);
}

/// The object of strings that a JSON text is, if it is one.
pub uninterp spec fn json_string_map(text: Seq<char>) -> Option<Map<Seq<char>, Seq<char>>>;

/// `serde_json::from_str` into a `HashMap<String, String>`: the members of the object
/// that the text is, in some order; nothing where the text is no object of strings. Which
/// members these are depends on the text alone.
#[verifier::external_body]
fn json_entries(text: &str) -> (r: Option<Vec<Comment>>)
    ensures
        match r {
            Some(v) => json_string_map(text@) == Some(by_file(v@)),
            None => json_string_map(text@) is None,
        },
{
    let map = serde_json::from_str::<std::collections::HashMap<String, String>>(text).ok()?;
    Some(map.into_iter().map(|(file, text)| Comment { file, text }).collect())
}

/// `serde_json::to_string_pretty` of a `HashMap<&str, &str>`: a text that is read back as
/// the members that were written. In which order they stand in it is left open, as the
/// order in which a `HashMap` is walked is.
#[verifier::external_body]
fn json_text(entries: &Vec<Comment>) -> (r: String)
    ensures
        json_string_map(r@) == Some(by_file(entries@)),
{
    let map: std::collections::HashMap<&str, &str> =
        entries.iter().map(|c| (c.file.as_str(), c.text.as_str())).collect();
    serde_json::to_string_pretty(&map).unwrap()
}

impl View for Comments {
    type V = Map<Seq<char>, Seq<char>>;

    closed spec fn view(&self) -> Map<Seq<char>, Seq<char>> {
        by_file(self.entries@)
    }
}

impl Comments {
    pub closed spec fn wf(&self) -> bool {
        files_distinct(self.entries@)
    }

    /// No comments.
    pub fn new() -> (r: Comments)
        ensures
            r.wf(),
            r@ == Map::<Seq<char>, Seq<char>>::empty(),
    {
        Comments { entries: Vec::new() }
    }

    fn place(&self, file: &String) -> (r: usize)
        requires
            self.wf(),
        ensures
            r <= self.entries@.len(),
            r < self.entries@.len() ==> self.entries@[r as int].file@ == file@,
            r < self.entries@.len() <==> self@.dom().contains(file@),
    {
        proof {
            lemma_by_file(self.entries@);
        }
        let mut i: usize = 0;
        while i < self.entries.len()
            invariant
                i <= self.entries@.len(),
                forall|j: int| 0 <= j < i ==> (#[trigger] self.entries@[j]).file@ != file@,
                forall|j: int|
                    0 <= j < self.entries@.len() ==> self@.dom().contains(
                        (#[trigger] self.entries@[j]).file@,
                    ),
                forall|f: Seq<char>| #[trigger]
                    self@.dom().contains(f) ==> exists|j: int|
                        0 <= j < self.entries@.len() && (#[trigger] self.entries@[j]).file@ == f,
            decreases self.entries@.len() - i,
        {
            if self.entries[i].file == *file {
                return i;
            }
            i = i + 1;
        }
        i
    }

    /// The comment on a file, if there is one.
    pub fn find(&self, file: &String) -> (r: Option<&String>)
        requires
            self.wf(),
        ensures
            match r {
                Some(text) => self@.dom().contains(file@) && text@ == self@[file@],
                None => !self@.dom().contains(file@),
            },
    {
        let i: usize = self.place(file);
        if i < self.entries.len() {
            proof {
                lemma_by_file(self.entries@);
            }
            Some(&self.entries[i].text)
        } else {
            None
        }
    }

    /// The comment on a file, empty if there is none.
    pub fn get(&self, file: &String) -> (r: String)
        requires
            self.wf(),
        ensures
            r@ == if self@.dom().contains(file@) {
                self@[file@]
            } else {
                seq![]
            },
    {
        match self.find(file) {
            Some(text) => text.clone(),
            None => String::new(),
        }
    }

    /// Puts a comment on a file in the place of the one there is.
    pub fn insert(&mut self, file: String, text: String)
        requires
            old(self).wf(),
        ensures
            final(self).wf(),
            final(self)@ == old(self)@.insert(file@, text@),
    {
        let ghost before = self.entries@;
        let ghost m = self@;
        let i: usize = self.place(&file);
        proof {
            lemma_by_file(before);
        }
        if i < self.entries.len() {
            self.entries.set(i, Comment { file, text });
            proof {
                let now = self.entries@;
                assert forall|a: int, b: int| 0 <= a < b < now.len() implies (#[trigger] now[a]).file@
                    != (#[trigger] now[b]).file@ by {
                    assert(now[a].file@ == before[a].file@ && now[b].file@ == before[b].file@);
                    assert(before[a].file@ != before[b].file@);
                }
                let want = m.insert(file@, text@);
                assert forall|j: int| 0 <= j < now.len() implies want.dom().contains(
                    (#[trigger] now[j]).file@,
                ) && want[now[j].file@] == now[j].text@ by {
                    if j != i {
                        assert(now[j] == before[j]);
                        if j < i {
                            assert(before[j].file@ != before[i as int].file@);
                        } else {
                            assert(before[i as int].file@ != before[j].file@);
                        }
                    }
                }
                assert forall|f: Seq<char>| #[trigger] want.dom().contains(f) implies exists|j: int|
                    0 <= j < now.len() && (#[trigger] now[j]).file@ == f by {
                    if f == file@ {
                        assert(now[i as int].file@ == f);
                    } else {
                        let j = choose|j: int|
                            0 <= j < before.len() && (#[trigger] before[j]).file@ == f;
                        assert(now[j].file@ == f);
                    }
                }
                lemma_agreeing(now, want);
            }
        } else {
            self.entries.push(Comment { file, text });
            proof {
                let now = self.entries@;
                assert(now.drop_last() =~= before);
                assert forall|a: int, b: int| 0 <= a < b < now.len() implies (#[trigger] now[a]).file@
                    != (#[trigger] now[b]).file@ by {
                    if b == before.len() {
                        assert(m.dom().contains(before[a].file@));
                    } else {
                        assert(before[a].file@ != before[b].file@);
                    }
                }
            }
        }
    }

    /// Takes the comment on a file away.
    pub fn remove(&mut self, file: &String)
        requires
            old(self).wf(),
        ensures
            final(self).wf(),
            final(self)@ == old(self)@.remove(file@),
    {
        let ghost before = self.entries@;
        let ghost m = self@;
        let i: usize = self.place(file);
        proof {
            lemma_by_file(before);
        }
        if i < self.entries.len() {
            let _ = self.entries.remove(i);
            proof {
                let now = self.entries@;
                let want = m.remove(file@);
                assert forall|a: int, b: int| 0 <= a < b < now.len() implies (#[trigger] now[a]).file@
                    != (#[trigger] now[b]).file@ by {
                    let x = if a < i {
                        a
                    } else {
                        a + 1
                    };
                    let y = if b < i {
                        b
                    } else {
                        b + 1
                    };
                    assert(now[a] == before[x] && now[b] == before[y]);
                    assert(before[x].file@ != before[y].file@);
                }
                assert forall|j: int| 0 <= j < now.len() implies want.dom().contains(
                    (#[trigger] now[j]).file@,
                ) && want[now[j].file@] == now[j].text@ by {
                    let x = if j < i {
                        j
                    } else {
                        j + 1
                    };
                    assert(now[j] == before[x]);
                    if x < i {
                        assert(before[x].file@ != before[i as int].file@);
                    } else {
                        assert(before[i as int].file@ != before[x].file@);
                    }
                }
                assert forall|f: Seq<char>| #[trigger] want.dom().contains(f) implies exists|j: int|
                    0 <= j < now.len() && (#[trigger] now[j]).file@ == f by {
                    let x = choose|x: int|
                        0 <= x < before.len() && (#[trigger] before[x]).file@ == f;
                    let j = if x < i {
                        x
                    } else {
                        x - 1
                    };
                    assert(now[j].file@ == f);
                }
                lemma_agreeing(now, want);
            }
        } else {
            assert(m.remove(file@) =~= m);
        }
    }

    /// Takes over what the user wrote about a file: nothing but white space takes
    /// the comment away.
    pub fn edit(&mut self, file: String, text: &String)
        requires
            old(self).wf(),
        ensures
            final(self).wf(),
            final(self)@ == if trimmed(text@).len() == 0 {
                old(self)@.remove(file@)
            } else {
                old(self)@.insert(file@, text@)
            },
    {
        if is_blank(text.as_str()) {
            self.remove(&file);
        } else {
            self.insert(file, text.clone());
        }
    }

    /// All comments, each file once.
    pub fn entries(&self) -> (r: &Vec<Comment>)
        requires
            self.wf(),
        ensures
            by_file(r@) == self@,
            files_distinct(r@),
    {
        &self.entries
    }

    /// The comments that entries make up: the last one of a file if there are several,
    /// and none at all where there are no entries to read.
    pub fn of_entries(entries: Option<Vec<Comment>>) -> (c: Comments)
        ensures
            c.wf(),
            c@ == match entries {
                Some(v) => by_file(v@),
                None => Map::<Seq<char>, Seq<char>>::empty(),
            },
    {
        let mut c = Comments::new();
        if let Some(v) = entries {
            for i in 0..v.len()
                invariant
                    c.wf(),
                    c@ == by_file(v@.take(i as int)),
            {
                assert(v@.take(i + 1).drop_last() =~= v@.take(i as int));
                c.insert(v[i].file.clone(), v[i].text.clone());
            }
            assert(v@.take(v@.len() as int) =~= v@);
        }
        c
    }

    /// The comments that a file holds; none if its text cannot be read as such.
    pub fn of_json(text: &str) -> (c: Comments)
        ensures
            c.wf(),
            c@ == match json_string_map(text@) {
                Some(m) => m,
                None => Map::<Seq<char>, Seq<char>>::empty(),
            },
    {
        Self::of_entries(json_entries(text))
    }

    /// The text of a file that holds the comments: it is read back as these comments.
    pub fn to_json(&self) -> (r: String)
        requires
            self.wf(),
        ensures
            json_string_map(r@) == Some(self@),
    {
        json_text(&self.entries)
    }
}

} // verus!
