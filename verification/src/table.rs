//! Splitting the text of a table into rows and fields.
use vstd::prelude::*;
use vstd::std_specs::iter::IteratorSpec;

verus! {

/// The pieces of `s` between occurrences of `sep`. There is always at least
/// one piece; a separator at the very end is followed by an empty piece.
pub open spec fn split(s: Seq<char>, sep: char) -> Seq<Seq<char>>
    decreases s.len(),
{
    if s.len() == 0 {
        seq![Seq::<char>::empty()]
    } else {
        let before = split(s.drop_last(), sep);
        if s.last() == sep {
            before.push(Seq::<char>::empty())
        } else {
            before.drop_last().push(before.last().push(s.last()))
        }
    }
}

/// The rows of a table text: every line that ends in a line feed, split into
/// fields at `delimiter`. What follows the last line feed belongs to no row.
/// With the line feed itself as delimiter no line ever ends, and there are no
/// rows.
pub open spec fn csv_rows(content: Seq<char>, delimiter: char) -> Seq<Seq<Seq<char>>> {
    if delimiter == '\n' {
        Seq::empty()
    } else {
        let lines = split(content, '\n').drop_last();
        Seq::new(lines.len(), |i: int| split(lines[i], delimiter))
    }
}

/// The fields of one row as sequences of characters.
pub open spec fn row_view(row: Seq<String>) -> Seq<Seq<char>> {
    Seq::new(row.len(), |i: int| row[i]@)
}

/// The rows of a table as sequences of fields.
pub open spec fn table_view(rows: Seq<Vec<String>>) -> Seq<Seq<Seq<char>>> {
    Seq::new(rows.len(), |i: int| row_view(rows[i]@))
}

/// `String::push` of the standard library: appends the character `c` to the
/// end of `s` and leaves the characters before it as they were.
#[verifier::external_body]
fn push_char(s: &mut String, c: char)
    ensures
        final(s)@ == old(s)@.push(c),
{
    s.push(c)
}

/// Splits the text of a table into rows of fields.
///
/// A row ends at each line feed and a field at each `delimiter`; neither
/// character becomes part of a field. Text after the last line feed is not
/// part of any row.
pub fn csv_parse(content: &str, delimiter: char) -> (rows: Vec<Vec<String>>)
    ensures
        table_view(rows@) == csv_rows(content@, delimiter),
{
    let mut data_array: Vec<Vec<String>> = Vec::new();
    let mut string_array: Vec<String> = Vec::new();
    let mut string: String = String::new();
    let mut it = content.chars();
    let ghost mut seen: Seq<char> = Seq::empty();
    let ghost mut lines: Seq<Seq<char>> = Seq::empty();
    let ghost mut partial: Seq<char> = Seq::empty();
    proof {
        assert(split(seen, '\n') =~= lines.push(partial));
        assert(split(partial, delimiter) =~= row_view(string_array@).push(string@));
        assert(seen + it.remaining() =~= content@);
    }
    loop
        invariant
            it.obeys_prophetic_iter_laws(),
            it.decrease() is Some,
            seen + it.remaining() == content@,
            delimiter == '\n' ==> data_array@.len() == 0,
            delimiter != '\n' ==> split(seen, '\n') == lines.push(partial),
            delimiter != '\n' ==> data_array@.len() == lines.len(),
            delimiter != '\n' ==> forall|i: int|
                0 <= i < lines.len() ==> row_view((#[trigger] data_array@[i])@) == split(
                    lines[i],
                    delimiter,
                ),
            delimiter != '\n' ==> split(partial, delimiter) == row_view(string_array@).push(string@),
        ensures
            seen == content@,
        decreases it.decrease()->0,
    {
        let ghost rest = it.remaining();
        match it.next() {
            Some(character) => {
                proof {
                    assert(seen.push(character) + it.remaining() =~= seen + rest);
                    assert(seen.push(character).drop_last() =~= seen);
                    assert(partial.push(character).drop_last() =~= partial);
                    assert(lines.push(partial).drop_last() =~= lines);
                    assert(row_view(string_array@).push(string@).drop_last() =~= row_view(
                        string_array@,
                    ));
                }
                let ghost fields = row_view(string_array@);
                let ghost field = string@;
                if character == delimiter {
                    string_array.push(string);
                    string = String::new();
                    proof {
                        assert(row_view(string_array@) =~= fields.push(field));
                        partial = partial.push(character);
                    }
                } else if character == '\n' {
                    string_array.push(string);
                    string = String::new();
                    proof {
                        assert(row_view(string_array@) =~= fields.push(field));
                        lines = lines.push(partial);
                        partial = Seq::empty();
                    }
                    data_array.push(string_array);
                    string_array = Vec::new();
                    proof {
                        assert(split(partial, delimiter) =~= row_view(string_array@).push(string@));
                    }
                } else {
                    push_char(&mut string, character);
                    proof {
                        partial = partial.push(character);
                        assert(row_view(string_array@) =~= fields);
                    }
                }
                proof {
                    seen = seen.push(character);
                }
            },
            None => {
                proof {
                    assert(seen + it.remaining() =~= seen);
                }
                break ;
            },
        }
    }
    proof {
        if delimiter != '\n' {
            assert(lines.push(partial).drop_last() =~= lines);
            assert(table_view(data_array@) =~= csv_rows(content@, delimiter));
        } else {
            assert(table_view(data_array@) =~= csv_rows(content@, delimiter));
        }
    }
    data_array
}

/// Why a parsed table is refused.
#[derive(Clone, Copy, Debug, PartialEq, Eq, Structural)]
pub enum ParseError {
    /// The row with this index does not have the number of fields asked for.
    FieldCount { row: usize, found: usize },
}

/// Checks that every row of a parsed table has exactly `count` fields, and
/// names the first row that has not.
pub fn check_field_count(rows: &Vec<Vec<String>>, count: usize) -> (res: Result<(), ParseError>)
    ensures
        res is Ok <==> forall|i: int| 0 <= i < rows@.len() ==> (#[trigger] rows@[i])@.len() == count,
        res matches Err(ParseError::FieldCount { row, found }) ==> {
            &&& row < rows@.len()
            &&& found == rows@[row as int]@.len()
            &&& found != count
            &&& forall|i: int| 0 <= i < row ==> (#[trigger] rows@[i])@.len() == count
        },
{
    let mut i: usize = 0;
    while i < rows.len()
        invariant
            i <= rows@.len(),
            forall|k: int| 0 <= k < i ==> (#[trigger] rows@[k])@.len() == count,
        decreases rows@.len() - i,
    {
        let found = rows[i].len();
        if found != count {
            return Err(ParseError::FieldCount { row: i, found });
        }
        i = i + 1;
    }
    Ok(())
}

} // verus!
