//! The data source: comma-separated text parsed into an ordered table.

use vstd::prelude::*;

verus! {

/// How a character sequence splits on a separator: one piece per stretch
/// between separators, with empty pieces kept. The empty sequence splits
/// into one empty piece, matching how a delimited line always holds at
/// least one (possibly empty) field.
pub open spec fn split_on(s: Seq<char>, sep: char) -> Seq<Seq<char>>
    decreases s.len(),
{
    if s.len() == 0 {
        seq![Seq::<char>::empty()]
    } else if s.last() == sep {
        split_on(s.drop_last(), sep).push(Seq::<char>::empty())
    } else {
        let parts = split_on(s.drop_last(), sep);
        parts.update(parts.len() - 1, parts.last().push(s.last()))
    }
}

/// The lines of a text: pieces between newline characters, where a final
/// newline closes the last line rather than opening an empty one, and empty
/// text holds no lines at all.
pub open spec fn spec_lines(s: Seq<char>) -> Seq<Seq<char>> {
    if s.len() == 0 {
        Seq::<Seq<char>>::empty()
    } else if s.last() == '\n' {
        split_on(s.drop_last(), '\n')
    } else {
        split_on(s, '\n')
    }
}

/// The table a text parses to: each line becomes one record, split on commas.
pub open spec fn spec_parse(s: Seq<char>) -> Seq<Seq<Seq<char>>> {
    spec_lines(s).map_values(|line: Seq<char>| split_on(line, ','))
}

/// An ordered table of records, each record an ordered sequence of text
/// fields. Rows may have differing field counts; fields are kept verbatim.
pub struct Buffer {
    pub tuples: Vec<Vec<String>>,
}

impl View for Buffer {
    type V = Seq<Seq<Seq<char>>>;

    open spec fn view(&self) -> Seq<Seq<Seq<char>>> {
        self.tuples.deep_view()
    }
}

impl Default for Buffer {
    /// An empty table: a valid, not-erroneous state.
    fn default() -> (buffer: Buffer)
        ensures
            buffer@ == Seq::<Seq<Seq<char>>>::empty(),
    {
        let buffer = Buffer { tuples: Vec::new() };
        proof {
            assert(buffer@ =~= Seq::<Seq<Seq<char>>>::empty());
        }
        buffer
    }
}

proof fn lemma_split_on_len(s: Seq<char>, sep: char)
    ensures
        split_on(s, sep).len() >= 1,
    decreases s.len(),
{
    if s.len() != 0 {
        lemma_split_on_len(s.drop_last(), sep);
    }
}

proof fn lemma_split_on_push_sep(s: Seq<char>, sep: char)
    ensures
        split_on(s.push(sep), sep) == split_on(s, sep).push(Seq::<char>::empty()),
{
    assert(s.push(sep).drop_last() =~= s);
}

proof fn lemma_split_on_push_other(s: Seq<char>, sep: char, c: char)
    requires
        c != sep,
    ensures
        ({
            let parts = split_on(s, sep);
            split_on(s.push(c), sep) == parts.update(parts.len() - 1, parts.last().push(c))
        }),
{
    assert(s.push(c).drop_last() =~= s);
}

impl Buffer {
    /// Parses delimited text into a table: one record per line, one field
    /// per comma-separated stretch, each field kept verbatim. Empty text
    /// yields an empty table.
    pub fn from_text(text: &str) -> (buffer: Buffer)
        ensures
            buffer@ == spec_parse(text@),
    {
        let length = text.unicode_len();
        let mut tuples: Vec<Vec<String>> = Vec::new();
        let mut tuple: Vec<String> = Vec::new();
        let mut start: usize = 0;
        let mut i: usize = 0;
        proof {
            assert(text@.take(0) =~= Seq::<char>::empty());
            assert(tuples.deep_view() =~= Seq::<Seq<Seq<char>>>::empty());
            assert(tuple.deep_view() =~= Seq::<Seq<char>>::empty());
            assert(text@.subrange(0, 0) =~= Seq::<char>::empty());
            let parts = split_on(text@.take(0), '\n');
            assert(parts.take(parts.len() - 1) =~= Seq::<Seq<char>>::empty());
            let fields = split_on(parts.last(), ',');
            assert(fields.take(fields.len() - 1) =~= Seq::<Seq<char>>::empty());
        }
        while i < length
            invariant
                length == text@.len(),
                i <= length,
                start <= i,
                split_on(text@.take(i as int), '\n').len() >= 1,
                ({
                    let parts = split_on(text@.take(i as int), '\n');
                    let fields = split_on(parts.last(), ',');
                    &&& fields.len() >= 1
                    &&& tuples.deep_view() == parts.take(parts.len() - 1).map_values(
                        |line: Seq<char>| split_on(line, ','),
                    )
                    &&& tuple.deep_view() == fields.take(fields.len() - 1)
                    &&& text@.subrange(start as int, i as int) == fields.last()
                }),
            decreases length - i,
        {
            let c = text.get_char(i);
            proof {
                let pref = text@.take(i as int);
                assert(text@.take(i + 1) =~= pref.push(text@[i as int]));
                lemma_split_on_len(text@.take(i + 1), '\n');
                if c == '\n' {
                    lemma_split_on_push_sep(pref, '\n');
                } else {
                    lemma_split_on_push_other(pref, '\n', c);
                }
            }
            if c == ',' {
                let ghost tuple_deep = tuple.deep_view();
                let field = text.substring_char(start, i).to_owned();
                tuple.push(field);
                start = i + 1;
                proof {
                    let pref = text@.take(i as int);
                    let parts = split_on(pref, '\n');
                    let fields = split_on(parts.last(), ',');
                    let parts2 = split_on(text@.take(i + 1), '\n');
                    assert(parts2.last() =~= parts.last().push(','));
                    lemma_split_on_push_sep(parts.last(), ',');
                    let fields2 = split_on(parts2.last(), ',');
                    assert(parts2.take(parts2.len() - 1) =~= parts.take(parts.len() - 1));
                    assert(tuple.deep_view() =~= tuple_deep.push(fields.last()));
                    assert(tuple.deep_view() =~= fields2.take(fields2.len() - 1));
                    assert(text@.subrange(i + 1, i + 1) =~= fields2.last());
                }
            } else if c == '\n' {
                let ghost tuple_deep = tuple.deep_view();
                let ghost tuples_deep = tuples.deep_view();
                let ghost pref = text@.take(i as int);
                let ghost parts = split_on(pref, '\n');
                let ghost fields = split_on(parts.last(), ',');
                let field = text.substring_char(start, i).to_owned();
                tuple.push(field);
                proof {
                    assert(tuple.deep_view() =~= tuple_deep.push(fields.last()));
                    assert(tuple.deep_view() =~= fields);
                }
                tuples.push(tuple);
                tuple = Vec::new();
                start = i + 1;
                proof {
                    let parts2 = split_on(text@.take(i + 1), '\n');
                    assert(parts2 == parts.push(Seq::<char>::empty()));
                    assert(tuples.deep_view() =~= tuples_deep.push(fields));
                    assert(tuples.deep_view() =~= parts2.take(parts2.len() - 1).map_values(
                        |line: Seq<char>| split_on(line, ','),
                    ));
                    let fields2 = split_on(parts2.last(), ',');
                    assert(tuple.deep_view() =~= fields2.take(fields2.len() - 1));
                    assert(text@.subrange(i + 1, i + 1) =~= fields2.last());
                }
            } else {
                proof {
                    let pref = text@.take(i as int);
                    let parts = split_on(pref, '\n');
                    let fields = split_on(parts.last(), ',');
                    let parts2 = split_on(text@.take(i + 1), '\n');
                    assert(parts2.last() =~= parts.last().push(c));
                    lemma_split_on_push_other(parts.last(), ',', c);
                    let fields2 = split_on(parts2.last(), ',');
                    assert(parts2.take(parts2.len() - 1) =~= parts.take(parts.len() - 1));
                    assert(fields2.take(fields2.len() - 1) =~= fields.take(fields.len() - 1));
                    assert(text@.subrange(start as int, i + 1) =~= text@.subrange(
                        start as int,
                        i as int,
                    ).push(text@[i as int]));
                    assert(text@.subrange(start as int, i + 1) =~= fields2.last());
                }
            }
            i += 1;
        }
        proof {
            assert(text@.take(length as int) =~= text@);
        }
        if length > 0 && text.get_char(length - 1) != '\n' {
            let ghost tuple_deep = tuple.deep_view();
            let ghost tuples_deep = tuples.deep_view();
            let ghost parts = split_on(text@, '\n');
            let ghost fields = split_on(parts.last(), ',');
            let field = text.substring_char(start, length).to_owned();
            tuple.push(field);
            proof {
                assert(tuple.deep_view() =~= tuple_deep.push(fields.last()));
                assert(tuple.deep_view() =~= fields);
            }
            tuples.push(tuple);
            proof {
                assert(tuples.deep_view() =~= tuples_deep.push(fields));
                assert(tuples.deep_view() =~= parts.map_values(
                    |line: Seq<char>| split_on(line, ','),
                ));
            }
            return Buffer { tuples };
        }
        proof {
            if length == 0 {
                assert(tuples.deep_view() =~= spec_parse(text@));
            } else {
                let body = text@.drop_last();
                assert(body.push('\n') =~= text@);
                lemma_split_on_push_sep(body, '\n');
                let parts = split_on(text@, '\n');
                assert(parts.take(parts.len() - 1) =~= split_on(body, '\n'));
            }
        }
        Buffer { tuples }
    }

    /// Whether the table holds no records.
    pub fn is_empty(&self) -> (empty: bool)
        ensures
            empty == (self@.len() == 0),
    {
        self.tuples.len() == 0
    }
}

} // verus!
