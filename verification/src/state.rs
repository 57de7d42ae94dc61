//! The watermark store: a mapping from repository URL to the last-seen
//! commit identifier, with a stable, human-diffable line format for
//! persisting it across runs.  One line per repository, `id`, a single
//! space, then the URL.  Loading is total and never errors: a text
//! that is not a valid serialization loads as the empty map.

use vstd::prelude::*;

use crate::text::str_eq;
use crate::text::find_char;
use crate::text::spec_find_char;

verus! {

/// One stored watermark: a repository URL and its last-seen commit id.
pub struct WatermarkEntry {
    /// Repository URL, the key.
    pub url: String,
    /// Identifier of the most recently observed commit.
    pub id: String,
}

/// The watermark map, keyed by repository URL.  URLs are unique.
pub struct WatermarkMap {
    entries: Vec<WatermarkEntry>,
}

impl View for WatermarkMap {
    type V = Seq<(Seq<char>, Seq<char>)>;

    closed spec fn view(&self) -> Seq<(Seq<char>, Seq<char>)> {
        self.entries@.map_values(|e: WatermarkEntry| (e.url@, e.id@))
    }
}

/// URLs are unique among the entries.
pub open spec fn wf_entries(s: Seq<(Seq<char>, Seq<char>)>) -> bool {
    forall|i: int, j: int| 0 <= i < j < s.len() ==> (#[trigger] s[i]).0 != (#[trigger] s[j]).0
}

/// The identifier stored for `u`, scanning entries in order.
pub open spec fn spec_get(s: Seq<(Seq<char>, Seq<char>)>, u: Seq<char>) -> Option<Seq<char>>
    decreases s.len(),
{
    if s.len() == 0 {
        None
    } else if s[0].0 == u {
        Some(s[0].1)
    } else {
        spec_get(s.skip(1), u)
    }
}

/// A stored key is found and an absent key is not.
pub proof fn lemma_get_absent(s: Seq<(Seq<char>, Seq<char>)>, u: Seq<char>)
    ensures
        (spec_get(s, u) is None) <==> (forall|i: int| 0 <= i < s.len() ==> (#[trigger] s[i]).0
            != u),
    decreases s.len(),
{
    if s.len() > 0 {
        lemma_get_absent(s.skip(1), u);
        if s[0].0 != u {
            assert forall|i: int| 1 <= i < s.len() implies (#[trigger] s[i]).0 == s.skip(1)[i
                - 1].0 by {}
        }
    }
}

proof fn lemma_get_update(s: Seq<(Seq<char>, Seq<char>)>, i: int, id: Seq<char>)
    requires
        0 <= i < s.len(),
        forall|j: int| 0 <= j < i ==> (#[trigger] s[j]).0 != s[i].0,
    ensures
        spec_get(s.update(i, (s[i].0, id)), s[i].0) == Some(id),
        forall|u: Seq<char>|
            u != s[i].0 ==> spec_get(s.update(i, (s[i].0, id)), u) == spec_get(s, u),
    decreases s.len(),
{
    let s2 = s.update(i, (s[i].0, id));
    if i == 0 {
        assert(s2[0] == (s[0].0, id));
        assert(s2.skip(1) =~= s.skip(1));
        assert forall|u: Seq<char>| u != s[0].0 implies spec_get(s2, u) == spec_get(s, u) by {
            assert(spec_get(s2, u) == spec_get(s2.skip(1), u));
            assert(spec_get(s, u) == spec_get(s.skip(1), u));
        }
    } else {
        lemma_get_update(s.skip(1), i - 1, id);
        assert(s.skip(1)[i - 1] == s[i]);
        assert forall|j: int| 0 <= j < i - 1 implies (#[trigger] s.skip(1)[j]).0 != s.skip(
            1,
        )[i - 1].0 by {
            assert(s.skip(1)[j] == s[j + 1]);
        }
        assert(s2[0] == s[0]);
        assert(s2.skip(1) =~= s.skip(1).update(i - 1, (s.skip(1)[i - 1].0, id)));
        assert(s[0].0 != s[i].0);
        assert(spec_get(s2, s[i].0) == spec_get(s2.skip(1), s[i].0));
        assert(spec_get(s2.skip(1), s[i].0) == Some(id));
        assert forall|u: Seq<char>| u != s[i].0 implies spec_get(s2, u) == spec_get(s, u) by {
            if s[0].0 == u {
                assert(spec_get(s2, u) == Some(s2[0].1));
                assert(spec_get(s, u) == Some(s[0].1));
            } else {
                assert(spec_get(s2, u) == spec_get(s2.skip(1), u));
                assert(spec_get(s, u) == spec_get(s.skip(1), u));
                assert(spec_get(s2.skip(1), u) == spec_get(s.skip(1), u));
            }
        }
    }
}

proof fn lemma_get_push(s: Seq<(Seq<char>, Seq<char>)>, url: Seq<char>, id: Seq<char>)
    ensures
        spec_get(s.push((url, id)), url) == if spec_get(s, url) is Some {
            spec_get(s, url)
        } else {
            Some(id)
        },
        forall|u: Seq<char>| u != url ==> spec_get(s.push((url, id)), u) == spec_get(s, u),
    decreases s.len(),
{
    let s2 = s.push((url, id));
    if s.len() == 0 {
        assert(s2[0] == (url, id));
        assert(s2.skip(1) =~= Seq::<(Seq<char>, Seq<char>)>::empty());
        assert forall|u: Seq<char>| u != url implies spec_get(s2, u) == spec_get(s, u) by {
            assert(spec_get(s2, u) == spec_get(s2.skip(1), u));
        }
    } else {
        lemma_get_push(s.skip(1), url, id);
        assert(s2[0] == s[0]);
        assert(s2.skip(1) =~= s.skip(1).push((url, id)));
        if s[0].0 != url {
            assert(spec_get(s2, url) == spec_get(s2.skip(1), url));
            assert(spec_get(s, url) == spec_get(s.skip(1), url));
        }
        assert forall|u: Seq<char>| u != url implies spec_get(s2, u) == spec_get(s, u) by {
            if s[0].0 == u {
                assert(spec_get(s2, u) == Some(s2[0].1));
            } else {
                assert(spec_get(s2, u) == spec_get(s2.skip(1), u));
                assert(spec_get(s, u) == spec_get(s.skip(1), u));
                assert(spec_get(s2.skip(1), u) == spec_get(s.skip(1), u));
            }
        }
    }
}

impl WatermarkMap {
    /// The map with no entries.
    pub fn new() -> (r: WatermarkMap)
        ensures
            r@ =~= Seq::<(Seq<char>, Seq<char>)>::empty(),
            wf_entries(r@),
    {
        WatermarkMap { entries: Vec::new() }
    }

    /// The stored identifier for `url`, if one was recorded.
    pub fn get(&self, url: &str) -> (r: Option<String>)
        ensures
            match r {
                Some(v) => spec_get(self@, url@) == Some(v@),
                None => spec_get(self@, url@) is None,
            },
    {
        let mut i: usize = 0;
        proof {
            assert(self@.skip(0) =~= self@);
        }
        while i < self.entries.len()
            invariant
                0 <= i <= self.entries@.len(),
                self@.len() == self.entries@.len(),
                spec_get(self@, url@) == spec_get(self@.skip(i as int), url@),
            decreases self.entries@.len() - i,
        {
            if str_eq(self.entries[i].url.as_str(), url) {
                assert(self@.skip(i as int)[0] == self@[i as int]);
                return Some(self.entries[i].id.clone());
            }
            proof {
                assert(self@.skip(i as int)[0] == self@[i as int]);
                assert(self@.skip(i as int).skip(1) =~= self@.skip(i + 1));
            }
            i = i + 1;
        }
        None
    }

    /// Records `id` as the watermark for `url`, replacing any earlier
    /// value: the recorded watermark only ever moves to the identifier
    /// just observed, and no other URL's entry changes.
    pub fn set(&mut self, url: &str, id: &str)
        requires
            wf_entries(old(self)@),
        ensures
            wf_entries(final(self)@),
            spec_get(final(self)@, url@) == Some(id@),
            forall|u: Seq<char>|
                u != url@ ==> spec_get(final(self)@, u) == spec_get(old(self)@, u),
    {
        let mut i: usize = 0;
        while i < self.entries.len()
            invariant
                0 <= i <= self.entries@.len(),
                self@ == old(self)@,
                wf_entries(self@),
                forall|j: int| 0 <= j < i ==> (#[trigger] self@[j]).0 != url@,
            decreases self.entries@.len() - i,
        {
            if str_eq(self.entries[i].url.as_str(), url) {
                let ghost gi = i as int;
                let ghost olds = self@;
                let new_entry = WatermarkEntry {
                    url: self.entries[i].url.clone(),
                    id: String::from_str(id),
                };
                self.entries.set(i, new_entry);
                proof {
                    assert(self@ =~= olds.update(gi, (olds[gi].0, id@)));
                    lemma_get_update(olds, gi, id@);
                    assert(olds[gi].0 == url@);
                    assert forall|a: int, b: int| 0 <= a < b < self@.len() implies (
                    #[trigger] self@[a]).0 != (#[trigger] self@[b]).0 by {
                        assert(self@[a].0 == olds[a].0);
                        assert(self@[b].0 == olds[b].0);
                    }
                }
                return ;
            }
            i = i + 1;
        }
        let ghost olds = self@;
        self.entries.push(WatermarkEntry { url: String::from_str(url), id: String::from_str(id) });
        proof {
            assert(self@ =~= olds.push((url@, id@)));
            lemma_get_push(olds, url@, id@);
            lemma_get_absent(olds, url@);
            assert forall|a: int, b: int| 0 <= a < b < self@.len() implies (#[trigger] self@[a]).0
                != (#[trigger] self@[b]).0 by {
                if b < olds.len() {
                    assert(self@[a].0 == olds[a].0);
                    assert(self@[b].0 == olds[b].0);
                } else {
                    assert(self@[a].0 == olds[a].0);
                    assert(self@[b].0 == url@);
                }
            }
        }
    }

    /// Number of stored watermarks.
    pub fn len(&self) -> (r: usize)
        ensures
            r == self@.len(),
    {
        self.entries.len()
    }

    /// Renders the map in its persistent form, one entry per line.
    pub fn serialize(&self) -> (r: String)
        requires
            ok_text(self@),
        ensures
            r@ == spec_ser(self@),
    {
        let mut r = String::new();
        let mut i: usize = 0;
        proof {
            reveal_strlit(" ");
            reveal_strlit("\n");
            assert(self@.take(0) =~= Seq::<(Seq<char>, Seq<char>)>::empty());
        }
        while i < self.entries.len()
            invariant
                0 <= i <= self.entries@.len(),
                self@.len() == self.entries@.len(),
                " "@ =~= seq![' '],
                "\n"@ =~= seq!['\n'],
                r@ == spec_ser(self@.take(i as int)),
            decreases self.entries@.len() - i,
        {
            r.append(self.entries[i].id.as_str());
            r.append(" ");
            r.append(self.entries[i].url.as_str());
            r.append("\n");
            proof {
                assert(self@.take(i + 1) =~= self@.take(i as int).push(self@[i as int]));
                lemma_ser_push(self@.take(i as int), self@[i as int]);
                assert(r@ =~= spec_ser(self@.take(i as int)) + spec_ser_line(self@[i as int]));
            }
            i = i + 1;
        }
        proof {
            assert(self@.take(self@.len() as int) =~= self@);
        }
        r
    }

    /// Reads a map back from its persistent form.  Loading is total
    /// and never errors: a text that is not a valid serialization — a
    /// line without a space, or a URL that appears twice — loads as
    /// the empty map, so a missing or damaged store (including one in
    /// some other format altogether) is silently recovered to empty.
    pub fn parse(text: &str) -> (r: WatermarkMap)
        ensures
            r@ == spec_load(text@),
            wf_entries(r@),
    {
        let mut m = WatermarkMap { entries: Vec::new() };
        let n = text.unicode_len();
        let mut start: usize = 0;
        let mut done = false;
        proof {
            assert(text@.skip(0) =~= text@);
            assert(m@ =~= Seq::<(Seq<char>, Seq<char>)>::empty());
        }
        while !done && start < n
            invariant
                0 <= start <= n,
                n == text@.len(),
                wf_entries(m@),
                done ==> spec_parse(text@, Seq::<(Seq<char>, Seq<char>)>::empty()) == Some(m@),
                !done ==> spec_parse(text@, Seq::<(Seq<char>, Seq<char>)>::empty()) == spec_parse(
                    text@.skip(start as int),
                    m@,
                ),
            decreases n - start, (if done { 0int } else { 1int }),
        {
            let ghost tail = text@.skip(start as int);
            let e = find_char(text, '\n', start);
            let line = text.substring_char(start, e);
            proof {
                let e2 = spec_find_char(tail, '\n', 0);
                crate::text::lemma_find_char_props(text@, '\n', start as int);
                crate::text::lemma_find_char_props(tail, '\n', 0);
                assert forall|j: int| 0 <= j < tail.len() implies tail[j] == text@[start + j] by {}
                assert(e2 == e - start) by {
                    if e2 < e - start {
                        assert(tail[e2] == '\n');
                        assert(text@[start + e2] == '\n');
                    } else if e2 > e - start {
                        if (e as int) < n {
                            assert(text@[e as int] == '\n');
                            assert(tail[e - start] == '\n');
                        }
                    }
                }
                assert(line@ =~= tail.take(e2));
            }
            let llen = line.unicode_len();
            let sp = find_char(line, ' ', 0);
            if sp >= llen {
                proof {
                    assert(spec_parse(tail, m@) is None);
                }
                return WatermarkMap::new();
            }
            let id = line.substring_char(0, sp);
            let url = line.substring_char(sp + 1, llen);
            proof {
                let e2 = spec_find_char(tail, '\n', 0);
                assert(id@ =~= tail.take(e2).take(spec_find_char(tail.take(e2), ' ', 0)));
                assert(url@ =~= tail.take(e2).skip(spec_find_char(tail.take(e2), ' ', 0) + 1));
            }
            let present = match m.get(url) {
                Some(_) => true,
                None => false,
            };
            if present {
                proof {
                    assert(spec_parse(tail, m@) is None);
                }
                return WatermarkMap::new();
            }
            let ghost olds = m@;
            m.entries.push(
                WatermarkEntry { url: String::from_str(url), id: String::from_str(id) },
            );
            proof {
                assert(m@ =~= olds.push((url@, id@)));
                lemma_get_absent(olds, url@);
                assert forall|a: int, b: int| 0 <= a < b < m@.len() implies (
                #[trigger] m@[a]).0 != (#[trigger] m@[b]).0 by {
                    if b < olds.len() {
                        assert(m@[a].0 == olds[a].0);
                        assert(m@[b].0 == olds[b].0);
                    } else {
                        assert(m@[a].0 == olds[a].0);
                        assert(m@[b].0 == url@);
                    }
                }
                let e2 = spec_find_char(tail, '\n', 0);
                if e < n {
                    assert(tail.skip(e2 + 1) =~= text@.skip(e + 1));
                    assert(spec_parse(tail, olds) == spec_parse(text@.skip(e + 1), m@));
                } else {
                    assert(spec_parse(tail, olds) == Some(m@));
                }
            }
            if e >= n {
                done = true;
            } else {
                start = e + 1;
            }
        }
        proof {
            if !done {
                assert(text@.skip(start as int).len() == 0);
            }
        }
        m
    }
}

/// Identifiers stored in the line format may hold neither a space nor a
/// newline.
pub open spec fn ok_id(s: Seq<char>) -> bool {
    forall|i: int| 0 <= i < s.len() ==> s[i] != ' ' && s[i] != '\n'
}

/// URLs stored in the line format may not hold a newline.
pub open spec fn ok_url(s: Seq<char>) -> bool {
    forall|i: int| 0 <= i < s.len() ==> s[i] != '\n'
}

/// Every entry fits the line format.
pub open spec fn ok_text(s: Seq<(Seq<char>, Seq<char>)>) -> bool {
    forall|i: int| 0 <= i < s.len() ==> ok_url((#[trigger] s[i]).0) && ok_id(s[i].1)
}

/// The persistent line for one entry: identifier, space, URL, newline.
pub open spec fn spec_ser_line(p: (Seq<char>, Seq<char>)) -> Seq<char> {
    p.1 + seq![' '] + p.0 + seq!['\n']
}

/// The persistent form of a whole map.
pub open spec fn spec_ser(s: Seq<(Seq<char>, Seq<char>)>) -> Seq<char>
    decreases s.len(),
{
    if s.len() == 0 {
        Seq::empty()
    } else {
        spec_ser_line(s[0]) + spec_ser(s.skip(1))
    }
}

proof fn lemma_ser_push(s: Seq<(Seq<char>, Seq<char>)>, p: (Seq<char>, Seq<char>))
    ensures
        spec_ser(s.push(p)) == spec_ser(s) + spec_ser_line(p),
    decreases s.len(),
{
    if s.len() == 0 {
        assert(s.push(p)[0] == p);
        assert(s.push(p).skip(1) =~= Seq::<(Seq<char>, Seq<char>)>::empty());
        assert(spec_ser(Seq::<(Seq<char>, Seq<char>)>::empty()) == Seq::<char>::empty());
        assert(spec_ser(s.push(p)) == spec_ser_line(p) + Seq::<char>::empty());
        assert(spec_ser_line(p) + Seq::<char>::empty() =~= Seq::<char>::empty() + spec_ser_line(
            p,
        ));
        assert(spec_ser(s) == Seq::<char>::empty());
    } else {
        lemma_ser_push(s.skip(1), p);
        assert(s.push(p)[0] == s[0]);
        assert(s.push(p).skip(1) =~= s.skip(1).push(p));
        assert(spec_ser(s.push(p)) == spec_ser_line(s[0]) + spec_ser(s.skip(1).push(p)));
        assert(spec_ser(s) == spec_ser_line(s[0]) + spec_ser(s.skip(1)));
        assert(spec_ser_line(s[0]) + (spec_ser(s.skip(1)) + spec_ser_line(p)) =~= (spec_ser_line(
            s[0],
        ) + spec_ser(s.skip(1))) + spec_ser_line(p));
    }
}

/// What a valid persistent text denotes, entry by entry: each line is
/// split at its first space into identifier and URL.  A line without a
/// space, or a URL that appears twice, makes the whole text invalid
/// (`None`): only a text that is a serialization is accepted.
pub open spec fn spec_parse(t: Seq<char>, acc: Seq<(Seq<char>, Seq<char>)>) -> Option<
    Seq<(Seq<char>, Seq<char>)>,
>
    decreases t.len(),
    via spec_parse_decreases
{
    if t.len() == 0 {
        Some(acc)
    } else {
        let e = spec_find_char(t, '\n', 0);
        let line = t.take(e);
        let sp = spec_find_char(line, ' ', 0);
        if sp >= line.len() {
            None
        } else {
            let id = line.take(sp);
            let url = line.skip(sp + 1);
            if spec_get(acc, url) is Some {
                None
            } else if e >= t.len() {
                Some(acc.push((url, id)))
            } else {
                spec_parse(t.skip(e + 1), acc.push((url, id)))
            }
        }
    }
}

/// The map a persistent text loads as: its entries when it is a valid
/// serialization, and the empty map otherwise — a missing or damaged
/// store is silently recovered to an empty map.
pub open spec fn spec_load(t: Seq<char>) -> Seq<(Seq<char>, Seq<char>)> {
    match spec_parse(t, Seq::<(Seq<char>, Seq<char>)>::empty()) {
        Some(s) => s,
        None => Seq::<(Seq<char>, Seq<char>)>::empty(),
    }
}

#[via_fn]
proof fn spec_parse_decreases(t: Seq<char>, acc: Seq<(Seq<char>, Seq<char>)>) {
    if t.len() > 0 {
        crate::text::lemma_find_char_props(t, '\n', 0);
    }
}

proof fn lemma_parse_ser(rest: Seq<(Seq<char>, Seq<char>)>, acc: Seq<(Seq<char>, Seq<char>)>)
    requires
        wf_entries(acc + rest),
        ok_text(rest),
    ensures
        spec_parse(spec_ser(rest), acc) == Some(acc + rest),
    decreases rest.len(),
{
    if rest.len() == 0 {
        assert(spec_ser(rest).len() == 0);
        assert(acc + rest =~= acc);
    } else {
        let p = rest[0];
        let t = spec_ser(rest);
        let line0 = p.1 + seq![' '] + p.0;
        assert(ok_id(p.1) && ok_url(p.0));
        assert(t =~= line0 + seq!['\n'] + spec_ser(rest.skip(1)));
        crate::text::lemma_find_char_props(t, '\n', 0);
        let e = spec_find_char(t, '\n', 0);
        assert(t[line0.len() as int] == '\n');
        assert forall|j: int| 0 <= j < line0.len() implies t[j] != '\n' by {
            assert(t[j] == line0[j]);
            if j < p.1.len() {
                assert(line0[j] == p.1[j]);
            } else if j == p.1.len() {
                assert(line0[j] == ' ');
            } else {
                assert(line0[j] == p.0[j - p.1.len() - 1]);
            }
        }
        assert(e == line0.len()) by {
            if e < line0.len() {
                assert(t[e] == '\n');
            }
            if e > line0.len() {
                assert(t[line0.len() as int] != '\n');
            }
        }
        let line = t.take(e);
        assert(line =~= line0);
        crate::text::lemma_find_char_props(line, ' ', 0);
        let sp = spec_find_char(line, ' ', 0);
        assert(line[p.1.len() as int] == ' ');
        assert forall|j: int| 0 <= j < p.1.len() implies line[j] != ' ' by {
            assert(line[j] == p.1[j]);
        }
        assert(sp == p.1.len()) by {
            if sp < p.1.len() {
                assert(line[sp] == ' ');
            }
            if sp > p.1.len() {
                assert(line[p.1.len() as int] != ' ');
            }
        }
        assert(sp < line.len());
        assert(line.take(sp) =~= p.1);
        assert(line.skip(sp + 1) =~= p.0);
        assert(spec_get(acc, p.0) is None) by {
            assert((acc + rest)[acc.len() as int] == p);
            assert forall|i: int| 0 <= i < acc.len() implies (#[trigger] acc[i]).0 != p.0 by {
                assert((acc + rest)[i] == acc[i]);
            }
            lemma_get_absent(acc, p.0);
        }
        assert(e < t.len());
        assert(t.skip(e + 1) =~= spec_ser(rest.skip(1)));
        assert(acc.push(p) + rest.skip(1) =~= acc + rest);
        assert(ok_text(rest.skip(1))) by {
            assert forall|i: int| 0 <= i < rest.skip(1).len() implies ok_url(
                (#[trigger] rest.skip(1)[i]).0,
            ) && ok_id(rest.skip(1)[i].1) by {
                assert(rest.skip(1)[i] == rest[i + 1]);
            }
        }
        lemma_parse_ser(rest.skip(1), acc.push(p));
        assert(spec_parse(t, acc) == spec_parse(t.skip(e + 1), acc.push(p)));
    }
}

/// Round trip: persisting a watermark map and reading it back yields
/// the very same entries, as long as the entries fit the line format
/// (no newline in a URL, no space or newline in an identifier).
pub proof fn lemma_state_roundtrip(m: Seq<(Seq<char>, Seq<char>)>)
    requires
        wf_entries(m),
        ok_text(m),
    ensures
        spec_load(spec_ser(m)) == m,
{
    let empty = Seq::<(Seq<char>, Seq<char>)>::empty();
    assert(empty + m =~= m);
    lemma_parse_ser(m, empty);
}

} // verus!
