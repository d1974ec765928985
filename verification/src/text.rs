//! Splitting and joining text, as `str::split` on one character and
//! `[String]::join` do.
use vstd::prelude::*;
use vstd::string::StrSliceExecFns;

verus! {

/// The character sequences held by a sequence of strings.
pub open spec fn strings_view(v: Seq<String>) -> Seq<Seq<char>> {
    v.map_values(|s: String| s@)
}

/// The pieces of `s` between occurrences of `sep`, in order; there is always
/// at least one piece, and two adjacent separators give an empty piece.
pub open spec fn split_spec(s: Seq<char>, sep: char) -> Seq<Seq<char>>
    decreases s.len(),
{
    if s.len() == 0 {
        seq![Seq::<char>::empty()]
    } else {
        let prev = split_spec(s.drop_last(), sep);
        if s.last() == sep {
            prev.push(Seq::<char>::empty())
        } else {
            prev.update(prev.len() - 1, prev.last().push(s.last()))
        }
    }
}

/// The pieces of `parts` with `sep` between each two neighbours.
pub open spec fn join_spec(parts: Seq<Seq<char>>, sep: Seq<char>) -> Seq<char>
    decreases parts.len(),
{
    if parts.len() == 0 {
        Seq::<char>::empty()
    } else if parts.len() == 1 {
        parts[0]
    } else {
        join_spec(parts.drop_last(), sep) + sep + parts.last()
    }
}

/// Splitting always gives at least one piece.
pub proof fn lemma_split_nonempty(s: Seq<char>, sep: char)
    ensures
        split_spec(s, sep).len() >= 1,
    decreases s.len(),
{
    if s.len() > 0 {
        lemma_split_nonempty(s.drop_last(), sep);
    }
}

/// Replacing the last piece by itself extended with `c` extends the join by `c`.
proof fn lemma_join_extend_last(parts: Seq<Seq<char>>, sep: Seq<char>, c: char)
    requires
        parts.len() >= 1,
    ensures
        join_spec(parts.update(parts.len() - 1, parts.last().push(c)), sep) == join_spec(parts, sep).push(c),
{
    let upd = parts.update(parts.len() - 1, parts.last().push(c));
    if parts.len() >= 2 {
        assert(upd.drop_last() =~= parts.drop_last());
        assert(join_spec(upd, sep) =~= join_spec(parts, sep).push(c));
    }
}

/// Joining the pieces of a split with the separator gives back the text.
pub proof fn lemma_join_split(s: Seq<char>, sep: char)
    ensures
        join_spec(split_spec(s, sep), seq![sep]) == s,
    decreases s.len(),
{
    if s.len() > 0 {
        let t = s.drop_last();
        lemma_join_split(t, sep);
        lemma_split_nonempty(t, sep);
        let prev = split_spec(t, sep);
        if s.last() == sep {
            let cur = prev.push(Seq::<char>::empty());
            assert(cur.drop_last() =~= prev);
            assert(join_spec(cur, seq![sep]) =~= s);
        } else {
            lemma_join_extend_last(prev, seq![sep], s.last());
            assert(t.push(s.last()) =~= s);
        }
    }
}

/// No piece of a split holds the separator.
pub proof fn lemma_split_pieces_free_of_separator(s: Seq<char>, sep: char)
    ensures
        forall|i: int, j: int|
            0 <= i < split_spec(s, sep).len() && 0 <= j < split_spec(s, sep)[i].len()
                ==> split_spec(s, sep)[i][j] != sep,
    decreases s.len(),
{
    if s.len() > 0 {
        lemma_split_pieces_free_of_separator(s.drop_last(), sep);
        lemma_split_nonempty(s.drop_last(), sep);
        let prev = split_spec(s.drop_last(), sep);
        let cur = split_spec(s, sep);
        assert forall|i: int, j: int| 0 <= i < cur.len() && 0 <= j < cur[i].len() implies cur[i][j] != sep by {
            if i < prev.len() - 1 {
                assert(cur[i] == prev[i]);
            } else if i == prev.len() - 1 {
                if s.last() != sep && j == prev[i].len() {
                } else {
                    assert(cur[i][j] == prev[i][j]);
                }
            }
        }
    }
}

/// `part` stands somewhere in `text`.
pub open spec fn occurs_in(part: Seq<char>, text: Seq<char>) -> bool {
    exists|k: int| 0 <= k && k + part.len() <= text.len() && #[trigger] text.subrange(k, k + part.len()) == part
}

/// What stands in a text stands in any text that it begins or ends.
pub proof fn lemma_occurs_in_concat(part: Seq<char>, a: Seq<char>, b: Seq<char>)
    requires
        occurs_in(part, a),
    ensures
        occurs_in(part, a + b),
        occurs_in(part, b + a),
{
    let k = choose|k: int| 0 <= k && k + part.len() <= a.len() && #[trigger] a.subrange(k, k + part.len()) == part;
    assert((a + b).subrange(k, k + part.len()) =~= part);
    assert((b + a).subrange(b.len() + k, b.len() + k + part.len()) =~= part);
}

/// A text stands in itself.
pub proof fn lemma_occurs_in_itself(t: Seq<char>)
    ensures
        occurs_in(t, t),
{
    let k: int = 0;
    assert(t.subrange(k, k + t.len()) =~= t);
}

/// Every piece stands in the join of the pieces.
pub proof fn lemma_join_holds_every_piece(parts: Seq<Seq<char>>, sep: Seq<char>)
    ensures
        forall|i: int| 0 <= i < parts.len() ==> occurs_in(#[trigger] parts[i], join_spec(parts, sep)),
    decreases parts.len(),
{
    if parts.len() == 1 {
        lemma_occurs_in_itself(parts[0]);
    } else if parts.len() >= 2 {
        let front = parts.drop_last();
        lemma_join_holds_every_piece(front, sep);
        assert forall|i: int| 0 <= i < parts.len() implies occurs_in(#[trigger] parts[i], join_spec(parts, sep)) by {
            if i < parts.len() - 1 {
                assert(parts[i] == front[i]);
                lemma_occurs_in_concat(parts[i], join_spec(front, sep), sep);
                lemma_occurs_in_concat(parts[i], join_spec(front, sep) + sep, parts.last());
            } else {
                lemma_occurs_in_itself(parts[i]);
                lemma_occurs_in_concat(parts[i], parts[i], join_spec(front, sep) + sep);
            }
        }
    }
}

/// Splits `s` at every occurrence of `sep`, as `s.split(sep)` collected into
/// a vector does.
pub fn split_on(s: &str, sep: char) -> (parts: Vec<String>)
    ensures
        strings_view(parts@) == split_spec(s@, sep),
{
    let n = s.unicode_len();
    let mut parts: Vec<String> = Vec::new();
    let mut start: usize = 0;
    let mut i: usize = 0;
    assert(s@.take(0) =~= Seq::<char>::empty());
    assert(strings_view(parts@).push(s@.subrange(0, 0)) =~= split_spec(s@.take(0), sep));
    while i < n
        invariant
            n == s@.len(),
            start <= i <= n,
            strings_view(parts@).push(s@.subrange(start as int, i as int)) =~= split_spec(
                s@.take(i as int),
                sep,
            ),
        decreases n - i,
    {
        let c = s.get_char(i);
        let ghost before = strings_view(parts@);
        proof {
            lemma_split_nonempty(s@.take(i as int), sep);
            assert(s@.take(i + 1).drop_last() =~= s@.take(i as int));
        }
        if c == sep {
            let part = s.substring_char(start, i).to_owned();
            let ghost piece = part@;
            let ghost old_parts = parts@;
            parts.push(part);
            assert(parts@ == old_parts.push(part));
            assert(strings_view(parts@) =~= before.push(piece));
            assert(piece == s@.subrange(start as int, i as int));
            start = i + 1;
            assert(s@.subrange(start as int, i + 1) =~= Seq::<char>::empty());
        } else {
            assert(s@.subrange(start as int, i + 1) =~= s@.subrange(start as int, i as int).push(c));
        }
        i = i + 1;
    }
    let last = s.substring_char(start, n).to_owned();
    let ghost before = strings_view(parts@);
    let ghost piece = last@;
    let ghost old_parts = parts@;
    parts.push(last);
    assert(parts@ == old_parts.push(last));
    assert(s@.take(n as int) =~= s@);
    assert(strings_view(parts@) =~= before.push(piece));
    parts
}

/// Whether two texts are equal, character by character.
pub fn text_eq(a: &str, b: &str) -> (r: bool)
    ensures
        r == (a@ == b@),
{
    let n = a.unicode_len();
    if n != b.unicode_len() {
        return false;
    }
    let mut i: usize = 0;
    while i < n
        invariant
            n == a@.len(),
            n == b@.len(),
            i <= n,
            forall|j: int| 0 <= j < i ==> a@[j] == b@[j],
        decreases n - i,
    {
        if a.get_char(i) != b.get_char(i) {
            return false;
        }
        i = i + 1;
    }
    assert(a@ =~= b@);
    true
}

/// Joins `parts` with `sep` between each two neighbours, as `parts.join(sep)`
/// does.
pub fn join(parts: &Vec<String>, sep: &str) -> (res: String)
    ensures
        res@ == join_spec(strings_view(parts@), sep@),
{
    let mut res = String::new();
    let ghost views = strings_view(parts@);
    let mut i: usize = 0;
    assert(views.take(0) =~= Seq::<Seq<char>>::empty());
    while i < parts.len()
        invariant
            views == strings_view(parts@),
            i <= parts.len(),
            res@ == join_spec(views.take(i as int), sep@),
        decreases parts.len() - i,
    {
        assert(views.take(i + 1).drop_last() =~= views.take(i as int));
        if i != 0 {
            res.append(sep);
        }
        res.append(parts[i].as_str());
        i = i + 1;
    }
    assert(views.take(parts.len() as int) =~= views);
    res
}

} // verus!
