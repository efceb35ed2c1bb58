//! Names inside a snapshot: cleaned measurement names, the two
//! directories, and the file that each measurement owns in them.

use vstd::prelude::*;

verus! {

/// `String::push` of the standard library appends the character to the
/// end of the string and changes nothing else.
pub assume_specification[ String::push ](s: &mut String, c: char)
    ensures
        final(s)@ == old(s)@.push(c),
;

/// The character that the source wraps around names.
pub open spec fn is_quote(c: char) -> bool {
    c == '"'
}

/// `s` without its quote characters, the rest in order.
pub open spec fn strip_quotes(s: Seq<char>) -> Seq<char> {
    s.filter(|c: char| !is_quote(c))
}

/// Removes every quote character from a measurement name, so that it can
/// serve as part of a file name.
pub fn sanitize(raw: &str) -> (clean: String)
    ensures
        clean@ == strip_quotes(raw@),
{
    let mut clean = String::new();
    for c in it: raw.chars()
        invariant
            it.seq() == raw@,
            clean@ == strip_quotes(raw@.take(it.index() as int)),
    {
        proof {
            let keep = |c: char| !is_quote(c);
            assert(raw@.take(it.index() + 1) =~= raw@.take(it.index() as int).push(c));
            raw@.take(it.index() as int).lemma_filter_push(c, keep);
        }
        if c != '"' {
            clean.push(c);
        }
    }
    proof {
        assert(raw@.take(raw@.len() as int) =~= raw@);
    }
    clean
}

/// The two tables of a snapshot. Each is a directory under the snapshot
/// root, holding one file per measurement, and is queried under the
/// directory's name.
#[derive(Clone, Copy, Debug, PartialEq, Eq, Structural)]
pub enum Table {
    Tags,
    Fields,
}

/// The extension of every snapshot file, dot included.
pub const FILE_EXTENSION: &'static str = ".parquet";

impl Table {
    /// The name of the table, which is also that of its directory.
    pub open spec fn spec_name(self) -> Seq<char> {
        match self {
            Table::Tags => "tags"@,
            Table::Fields => "fields"@,
        }
    }

    /// What follows the measurement name in a file name of this table.
    pub open spec fn spec_suffix(self) -> Seq<char> {
        match self {
            Table::Tags => "_tags.parquet"@,
            Table::Fields => "_fields.parquet"@,
        }
    }

    /// The file name that `measurement` has in this table.
    pub open spec fn spec_file_name(self, measurement: Seq<char>) -> Seq<char> {
        measurement + self.spec_suffix()
    }

    /// The name of the table, which is also that of its directory.
    pub fn name(self) -> (name: &'static str)
        ensures
            name@ == self.spec_name(),
    {
        match self {
            Table::Tags => "tags",
            Table::Fields => "fields",
        }
    }

    /// What follows the measurement name in a file name of this table.
    pub fn suffix(self) -> (suffix: &'static str)
        ensures
            suffix@ == self.spec_suffix(),
    {
        match self {
            Table::Tags => "_tags.parquet",
            Table::Fields => "_fields.parquet",
        }
    }

    /// The file name that `measurement` has in this table.
    pub fn file_name(self, measurement: &str) -> (name: String)
        ensures
            name@ == self.spec_file_name(measurement@),
    {
        let mut name = String::from_str(measurement);
        name.append(self.suffix());
        name
    }
}

/// Every suffix ends in the common file extension and holds no quote.
pub proof fn lemma_suffix_shape(table: Table)
    ensures
        table.spec_suffix() == "_"@ + table.spec_name() + FILE_EXTENSION@,
        forall|i: int| 0 <= i < table.spec_suffix().len() ==> !is_quote(#[trigger] table.spec_suffix()[i]),
{
    reveal_strlit("_");
    reveal_strlit("tags");
    reveal_strlit("fields");
    reveal_strlit(".parquet");
    reveal_strlit("_tags.parquet");
    reveal_strlit("_fields.parquet");
    assert(table.spec_suffix() =~= "_"@ + table.spec_name() + FILE_EXTENSION@);
}

/// A cleaned name holds no quote character, whatever the name was.
pub proof fn lemma_sanitized_holds_no_quote(raw: Seq<char>)
    ensures
        forall|i: int| 0 <= i < strip_quotes(raw).len() ==> !is_quote(#[trigger] strip_quotes(raw)[i]),
{
    let keep = |c: char| !is_quote(c);
    assert forall|i: int| 0 <= i < strip_quotes(raw).len() implies !is_quote(
        #[trigger] strip_quotes(raw)[i],
    ) by {
        raw.lemma_filter_pred(keep, i);
    }
}

/// The file of a measurement is named by its cleaned name and the table's
/// suffix, and no quote character of the delivered name reaches it.
pub proof fn lemma_file_name_holds_no_quote(table: Table, raw: Seq<char>)
    ensures
        forall|i: int|
            0 <= i < table.spec_file_name(strip_quotes(raw)).len() ==> !is_quote(
                #[trigger] table.spec_file_name(strip_quotes(raw))[i],
            ),
{
    lemma_sanitized_holds_no_quote(raw);
    lemma_suffix_shape(table);
    let clean = strip_quotes(raw);
    let name = table.spec_file_name(clean);
    assert forall|i: int| 0 <= i < name.len() implies !is_quote(#[trigger] name[i]) by {
        if i < clean.len() {
            assert(name[i] == clean[i]);
        } else {
            assert(name[i] == table.spec_suffix()[i - clean.len()]);
        }
    }
}

/// Two measurements share a file in a table only if they share their
/// name: the file name decides the measurement.
pub proof fn lemma_file_name_decides_measurement(table: Table, a: Seq<char>, b: Seq<char>)
    requires
        table.spec_file_name(a) == table.spec_file_name(b),
    ensures
        a == b,
{
    let suffix = table.spec_suffix();
    assert(table.spec_file_name(a).len() == a.len() + suffix.len());
    assert(table.spec_file_name(b).len() == b.len() + suffix.len());
    assert(a.len() == b.len());
    assert forall|i: int| 0 <= i < a.len() implies a[i] == b[i] by {
        assert(table.spec_file_name(a)[i] == a[i]);
        assert(table.spec_file_name(b)[i] == b[i]);
    }
    assert(a =~= b);
}

/// Cleaning a name that holds no quote changes nothing, so cleaning twice
/// is cleaning once.
pub proof fn lemma_sanitize_idempotent(raw: Seq<char>)
    ensures
        strip_quotes(strip_quotes(raw)) == strip_quotes(raw),
{
    lemma_sanitized_holds_no_quote(raw);
    lemma_unquoted_unchanged(strip_quotes(raw));
}

/// A name without quote characters is its own cleaned form.
pub proof fn lemma_unquoted_unchanged(name: Seq<char>)
    requires
        forall|i: int| 0 <= i < name.len() ==> !is_quote(#[trigger] name[i]),
    ensures
        strip_quotes(name) == name,
    decreases name.len(),
{
    let keep = |c: char| !is_quote(c);
    reveal(Seq::filter);
    if name.len() > 0 {
        lemma_unquoted_unchanged(name.drop_last());
        assert(name.drop_last().push(name.last()) =~= name);
        assert(keep(name.last()));
    }
}

} // verus!
