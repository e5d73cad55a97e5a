//! The query front-end: turns the byte text of a statement into a
//! structured request against the engine.
//!
//! Statements are split into space-separated words and parenthesized
//! groups; an `INSERT` statement carries a column list and one or
//! more value tuples. The parser works on raw statement bytes and
//! leaves them as raw bytes — what a value means is the engine's
//! business, not the parser's.

use vstd::prelude::*;

verus! {

/// The word that ends at the first space (the space is consumed,
/// the word excludes it), and the bytes after it. Without a space
/// the whole input is the word.
pub open spec fn spec_pop_word(s: Seq<u8>) -> (Seq<u8>, Seq<u8>)
    decreases s.len(),
{
    if s.len() == 0 {
        (Seq::empty(), Seq::empty())
    } else if s[0] == 32 {
        (Seq::empty(), s.drop_first())
    } else {
        let (w, r) = spec_pop_word(s.drop_first());
        (seq![s[0]] + w, r)
    }
}

/// The text up to the first closing parenthesis, with every opening
/// parenthesis dropped, and the bytes after that closing
/// parenthesis. Without one, the whole input (minus opening
/// parentheses) is the text.
pub open spec fn spec_pop_parenthesized(s: Seq<u8>) -> (Seq<u8>, Seq<u8>)
    decreases s.len(),
{
    if s.len() == 0 {
        (Seq::empty(), Seq::empty())
    } else if s[0] == 41 {
        (Seq::empty(), s.drop_first())
    } else if s[0] == 40 {
        spec_pop_parenthesized(s.drop_first())
    } else {
        let (w, r) = spec_pop_parenthesized(s.drop_first());
        (seq![s[0]] + w, r)
    }
}

/// Popping a group consumes at least the text it yields, and on a
/// nonempty input it always consumes at least one byte.
pub proof fn lemma_pop_parenthesized_len(s: Seq<u8>)
    ensures
        spec_pop_parenthesized(s).0.len() + spec_pop_parenthesized(s).1.len() <= s.len(),
        s.len() > 0 ==> spec_pop_parenthesized(s).1.len() < s.len(),
    decreases s.len(),
{
    if s.len() > 0 {
        lemma_pop_parenthesized_len(s.drop_first());
    }
}

/// Removes and returns the first space-separated word of the query,
/// consuming the separating space.
pub fn pop_word(query: &mut Vec<u8>) -> (word: Vec<u8>)
    ensures
        word@ == spec_pop_word(old(query)@).0,
        final(query)@ == spec_pop_word(old(query)@).1,
{
    let ghost s0 = query@;
    let mut word: Vec<u8> = Vec::new();
    proof {
        assert(word@ + spec_pop_word(query@).0 =~= spec_pop_word(s0).0);
    }
    while query.len() > 0
        invariant
            s0 == old(query)@,
            word@ + spec_pop_word(query@).0 == spec_pop_word(s0).0,
            spec_pop_word(query@).1 == spec_pop_word(s0).1,
        decreases query@.len(),
    {
        let c = query[0];
        query.remove(0);
        if c == 32 {
            proof {
                assert(word@ + Seq::<u8>::empty() =~= word@);
            }
            return word;
        }
        word.push(c);
        proof {
            let prev = word@.drop_last();
            assert(prev + (seq![c] + spec_pop_word(query@).0) =~= word@ + spec_pop_word(query@).0);
        }
    }
    proof {
        assert(word@ + Seq::<u8>::empty() =~= word@);
    }
    word
}

/// Removes and returns the text inside the next parenthesized group:
/// everything up to the first closing parenthesis, with opening
/// parentheses dropped; the closing parenthesis is consumed.
pub fn pop_string_inside_parenthesis(query: &mut Vec<u8>) -> (word: Vec<u8>)
    ensures
        word@ == spec_pop_parenthesized(old(query)@).0,
        final(query)@ == spec_pop_parenthesized(old(query)@).1,
{
    let ghost s0 = query@;
    let mut word: Vec<u8> = Vec::new();
    proof {
        assert(word@ + spec_pop_parenthesized(query@).0 =~= spec_pop_parenthesized(s0).0);
    }
    while query.len() > 0
        invariant
            s0 == old(query)@,
            word@ + spec_pop_parenthesized(query@).0 == spec_pop_parenthesized(s0).0,
            spec_pop_parenthesized(query@).1 == spec_pop_parenthesized(s0).1,
        decreases query@.len(),
    {
        let c = query[0];
        query.remove(0);
        if c == 41 {
            proof {
                assert(word@ + Seq::<u8>::empty() =~= word@);
            }
            return word;
        }
        if c != 40 {
            word.push(c);
            proof {
                let prev = word@.drop_last();
                assert(prev + (seq![c] + spec_pop_parenthesized(query@).0) =~= word@
                    + spec_pop_parenthesized(query@).0);
            }
        }
    }
    proof {
        assert(word@ + Seq::<u8>::empty() =~= word@);
    }
    word
}

/// An ASCII whitespace byte: space, tab, line feed or carriage
/// return.
pub open spec fn spec_is_ws(b: u8) -> bool {
    b == 32 || b == 9 || b == 10 || b == 13
}

/// The byte string with its leading ASCII whitespace removed.
pub open spec fn spec_trim_front(s: Seq<u8>) -> Seq<u8>
    decreases s.len(),
{
    if s.len() > 0 && spec_is_ws(s[0]) {
        spec_trim_front(s.drop_first())
    } else {
        s
    }
}

/// The byte string with its trailing ASCII whitespace removed.
pub open spec fn spec_trim_back(s: Seq<u8>) -> Seq<u8>
    decreases s.len(),
{
    if s.len() > 0 && spec_is_ws(s.last()) {
        spec_trim_back(s.drop_last())
    } else {
        s
    }
}

/// The byte string with leading and trailing ASCII whitespace
/// removed.
pub open spec fn spec_trim(s: Seq<u8>) -> Seq<u8> {
    spec_trim_back(spec_trim_front(s))
}

/// The comma-separated pieces of a byte string: an empty string is
/// one empty piece, and each comma starts a new piece.
pub open spec fn spec_split_commas(s: Seq<u8>) -> Seq<Seq<u8>>
    decreases s.len(),
{
    if s.len() == 0 {
        seq![Seq::<u8>::empty()]
    } else if s[0] == 44 {
        seq![Seq::<u8>::empty()] + spec_split_commas(s.drop_first())
    } else {
        let rest = spec_split_commas(s.drop_first());
        seq![seq![s[0]] + rest[0]] + rest.drop_first()
    }
}

/// Splitting yields at least one piece.
pub proof fn lemma_split_commas_nonempty(s: Seq<u8>)
    ensures
        spec_split_commas(s).len() >= 1,
    decreases s.len(),
{
    if s.len() > 0 {
        lemma_split_commas_nonempty(s.drop_first());
    }
}

/// The comma-separated pieces, each trimmed of surrounding ASCII
/// whitespace.
pub open spec fn spec_split_trimmed(s: Seq<u8>) -> Seq<Seq<u8>> {
    spec_split_commas(s).map_values(|t: Seq<u8>| spec_trim(t))
}

/// True exactly when the byte is ASCII whitespace.
fn is_ws(b: u8) -> (r: bool)
    ensures
        r == spec_is_ws(b),
{
    b == 32 || b == 9 || b == 10 || b == 13
}

/// A copy of the bytes with leading and trailing ASCII whitespace
/// removed.
fn trim_bytes(v: &Vec<u8>) -> (r: Vec<u8>)
    ensures
        r@ == spec_trim(v@),
{
    let mut start: usize = 0;
    proof {
        assert(v@.skip(0) =~= v@);
    }
    while start < v.len() && is_ws(v[start])
        invariant
            0 <= start <= v@.len(),
            spec_trim_front(v@) == spec_trim_front(v@.skip(start as int)),
        decreases v@.len() - start,
    {
        proof {
            assert(v@.skip(start as int).drop_first() =~= v@.skip(start as int + 1));
        }
        start = start + 1;
    }
    let ghost f = v@.skip(start as int);
    proof {
        assert(spec_trim_front(v@) == f);
        assert(f =~= v@.subrange(start as int, v@.len() as int));
    }
    let mut end: usize = v.len();
    while end > start && is_ws(v[end - 1])
        invariant
            0 <= start <= end <= v@.len(),
            f == v@.skip(start as int),
            spec_trim_back(f) == spec_trim_back(v@.subrange(start as int, end as int)),
        decreases end,
    {
        proof {
            let cur = v@.subrange(start as int, end as int);
            assert(cur.last() == v@[end - 1]);
            assert(cur.drop_last() =~= v@.subrange(start as int, end as int - 1));
        }
        end = end - 1;
    }
    proof {
        assert(spec_trim_back(v@.subrange(start as int, end as int)) == v@.subrange(
            start as int,
            end as int,
        ));
    }
    vstd::slice::slice_to_vec(vstd::slice::slice_subrange(v.as_slice(), start, end))
}

/// The comma-separated pieces of the bytes, each trimmed.
fn split_trimmed(s: &Vec<u8>) -> (r: Vec<Vec<u8>>)
    ensures
        r.deep_view() == spec_split_trimmed(s@),
{
    let mut parts: Vec<Vec<u8>> = Vec::new();
    let ghost mut raw: Seq<Seq<u8>> = Seq::empty();
    let mut cur: Vec<u8> = Vec::new();
    let mut i: usize = 0;
    proof {
        lemma_split_commas_nonempty(s@);
        assert(s@.skip(0) =~= s@);
        assert(raw + seq![cur@ + spec_split_commas(s@.skip(0))[0]] + spec_split_commas(
            s@.skip(0),
        ).drop_first() =~= spec_split_commas(s@));
    }
    while i < s.len()
        invariant
            0 <= i <= s@.len(),
            spec_split_commas(s@) == raw + seq![cur@ + spec_split_commas(s@.skip(i as int))[0]]
                + spec_split_commas(s@.skip(i as int)).drop_first(),
            parts@.len() == raw.len(),
            forall|k: int| 0 <= k < raw.len() ==> (#[trigger] parts@[k])@ == spec_trim(raw[k]),
        decreases s@.len() - i,
    {
        let ghost cur0 = cur@;
        let ghost raw0 = raw;
        let ghost rest_before = spec_split_commas(s@.skip(i as int));
        let ghost next = spec_split_commas(s@.skip(i as int + 1));
        proof {
            assert(s@.skip(i as int)[0] == s@[i as int]);
            assert(s@.skip(i as int).drop_first() =~= s@.skip(i as int + 1));
            lemma_split_commas_nonempty(s@.skip(i as int + 1));
        }
        let c = s[i];
        if c == 44 {
            let t = trim_bytes(&cur);
            parts.push(t);
            cur = Vec::new();
            proof {
                raw = raw0.push(cur0);
                assert(rest_before == seq![Seq::<u8>::empty()] + next);
                assert(rest_before[0] =~= Seq::<u8>::empty());
                assert(cur0 + rest_before[0] =~= cur0);
                assert(rest_before.drop_first() =~= next);
                assert(seq![cur0 + rest_before[0]] =~= seq![cur0]);
                assert(cur@ =~= Seq::<u8>::empty());
                assert(cur@ + next[0] =~= next[0]);
                assert(raw0 + seq![cur0] + next =~= raw + seq![cur@ + next[0]] + next.drop_first())
                    by {
                    assert(seq![next[0]] + next.drop_first() =~= next);
                }
                assert(spec_split_commas(s@) == raw + seq![cur@ + next[0]] + next.drop_first());
            }
        } else {
            cur.push(c);
            proof {
                assert(rest_before == seq![seq![s@[i as int]] + next[0]] + next.drop_first());
                assert(rest_before[0] == seq![s@[i as int]] + next[0]);
                assert(rest_before.drop_first() =~= next.drop_first());
                assert(cur@ =~= cur0 + seq![c]);
                assert(cur0 + rest_before[0] =~= cur@ + next[0]);
                assert(seq![cur0 + rest_before[0]] =~= seq![cur@ + next[0]]);
                assert(spec_split_commas(s@) == raw + seq![cur@ + next[0]] + next.drop_first());
            }
        }
        i = i + 1;
    }
    let t = trim_bytes(&cur);
    let ghost cur0 = cur@;
    let ghost raw0 = raw;
    parts.push(t);
    proof {
        raw = raw0.push(cur0);
        assert(s@.skip(s@.len() as int) =~= Seq::<u8>::empty());
        let tail = spec_split_commas(Seq::<u8>::empty());
        assert(cur0 + tail[0] =~= cur0);
        assert(tail.drop_first() =~= Seq::<Seq<u8>>::empty());
        assert(raw0 + seq![cur0 + tail[0]] + tail.drop_first() =~= raw);
        assert(spec_split_commas(s@) == raw);
        assert(parts.deep_view() =~= spec_split_trimmed(s@)) by {
            assert(parts@.len() == raw.len());
            assert forall|k: int| 0 <= k < raw.len() implies parts.deep_view()[k]
                == spec_split_trimmed(s@)[k] by {
                assert(parts@[k]@ == spec_trim(raw[k]));
                assert(parts.deep_view()[k] =~= parts@[k]@);
            }
            lemma_split_commas_nonempty(s@);
        }
    }
    parts
}

/// The bytes of the keyword `SELECT`.
pub open spec fn kw_select() -> Seq<u8> {
    seq![83u8, 69u8, 76u8, 69u8, 67u8, 84u8]
}

/// The bytes of the keyword `INSERT`.
pub open spec fn kw_insert() -> Seq<u8> {
    seq![73u8, 78u8, 83u8, 69u8, 82u8, 84u8]
}

/// The bytes of the keyword `FROM`.
pub open spec fn kw_from() -> Seq<u8> {
    seq![70u8, 82u8, 79u8, 77u8]
}

/// The bytes of the keyword `INTO`.
pub open spec fn kw_into() -> Seq<u8> {
    seq![73u8, 78u8, 84u8, 79u8]
}

/// The bytes of the keyword `VALUES`.
pub open spec fn kw_values() -> Seq<u8> {
    seq![86u8, 65u8, 76u8, 85u8, 69u8, 83u8]
}

/// True exactly when the word is `FROM`.
fn is_kw_from(w: &Vec<u8>) -> (r: bool)
    ensures
        r <==> w@ == kw_from(),
{
    let r = w.len() == 4 && w[0] == 70 && w[1] == 82 && w[2] == 79 && w[3] == 77;
    proof {
        if r {
            assert(w@ =~= kw_from());
        }
        if w@ == kw_from() {
            assert(w@[0] == 70 && w@[1] == 82 && w@[2] == 79 && w@[3] == 77);
        }
    }
    r
}

/// True exactly when the word is `INTO`.
fn is_kw_into(w: &Vec<u8>) -> (r: bool)
    ensures
        r <==> w@ == kw_into(),
{
    let r = w.len() == 4 && w[0] == 73 && w[1] == 78 && w[2] == 84 && w[3] == 79;
    proof {
        if r {
            assert(w@ =~= kw_into());
        }
        if w@ == kw_into() {
            assert(w@[0] == 73 && w@[1] == 78 && w@[2] == 84 && w@[3] == 79);
        }
    }
    r
}

/// True exactly when the word is `SELECT`.
fn is_kw_select(w: &Vec<u8>) -> (r: bool)
    ensures
        r <==> w@ == kw_select(),
{
    let r = w.len() == 6 && w[0] == 83 && w[1] == 69 && w[2] == 76 && w[3] == 69 && w[4] == 67
        && w[5] == 84;
    proof {
        if r {
            assert(w@ =~= kw_select());
        }
        if w@ == kw_select() {
            assert(w@[0] == 83 && w@[1] == 69 && w@[2] == 76 && w@[3] == 69 && w@[4] == 67
                && w@[5] == 84);
        }
    }
    r
}

/// True exactly when the word is `INSERT`.
fn is_kw_insert(w: &Vec<u8>) -> (r: bool)
    ensures
        r <==> w@ == kw_insert(),
{
    let r = w.len() == 6 && w[0] == 73 && w[1] == 78 && w[2] == 83 && w[3] == 69 && w[4] == 82
        && w[5] == 84;
    proof {
        if r {
            assert(w@ =~= kw_insert());
        }
        if w@ == kw_insert() {
            assert(w@[0] == 73 && w@[1] == 78 && w@[2] == 83 && w@[3] == 69 && w@[4] == 82
                && w@[5] == 84);
        }
    }
    r
}

/// True exactly when the word is `VALUES`.
fn is_kw_values(w: &Vec<u8>) -> (r: bool)
    ensures
        r <==> w@ == kw_values(),
{
    let r = w.len() == 6 && w[0] == 86 && w[1] == 65 && w[2] == 76 && w[3] == 85 && w[4] == 69
        && w[5] == 83;
    proof {
        if r {
            assert(w@ =~= kw_values());
        }
        if w@ == kw_values() {
            assert(w@[0] == 86 && w@[1] == 65 && w@[2] == 76 && w@[3] == 85 && w@[4] == 69
                && w@[5] == 83);
        }
    }
    r
}

/// What a statement reads: everything; the only scope there is.
#[derive(Debug)]
pub enum Scope {
    All,
}

/// Where a statement reads from or writes to: a table to scan, a
/// table to insert into, or neither.
#[derive(Debug)]
pub enum QuerySource {
    Table(Vec<u8>),
    IntoTable(Vec<u8>),
    Invalid,
}

/// Mathematical model of a query source.
pub enum QuerySourceModel {
    Table(Seq<u8>),
    IntoTable(Seq<u8>),
    Invalid,
}

impl View for QuerySource {
    type V = QuerySourceModel;

    open spec fn view(&self) -> QuerySourceModel {
        match self {
            QuerySource::Table(t) => QuerySourceModel::Table(t@),
            QuerySource::IntoTable(t) => QuerySourceModel::IntoTable(t@),
            QuerySource::Invalid => QuerySourceModel::Invalid,
        }
    }
}

/// Reading a query source: `FROM <table>` or `INTO <table>`; any
/// other leading word leaves the source invalid, with only that word
/// consumed.
pub open spec fn spec_query_source(s: Seq<u8>) -> (QuerySourceModel, Seq<u8>) {
    let (w, r) = spec_pop_word(s);
    if w == kw_from() {
        let (t, r2) = spec_pop_word(r);
        (QuerySourceModel::Table(t), r2)
    } else if w == kw_into() {
        let (t, r2) = spec_pop_word(r);
        (QuerySourceModel::IntoTable(t), r2)
    } else {
        (QuerySourceModel::Invalid, r)
    }
}

impl QuerySource {
    /// Parses `FROM <table>` or `INTO <table>` off the front of the
    /// query; any other leading word makes the source invalid.
    pub fn from(query: &mut Vec<u8>) -> (r: QuerySource)
        ensures
            r@ == spec_query_source(old(query)@).0,
            final(query)@ == spec_query_source(old(query)@).1,
    {
        let word = pop_word(query);
        if is_kw_from(&word) {
            let table = pop_word(query);
            QuerySource::Table(table)
        } else if is_kw_into(&word) {
            let table = pop_word(query);
            QuerySource::IntoTable(table)
        } else {
            QuerySource::Invalid
        }
    }
}

/// The column names an insert statement targets, or nothing usable.
#[derive(Debug)]
pub enum ColumnList {
    Columns(Vec<Vec<u8>>),
    Invalid,
}

/// Mathematical model of a column list.
pub enum ColumnListModel {
    Columns(Seq<Seq<u8>>),
    Invalid,
}

impl View for ColumnList {
    type V = ColumnListModel;

    open spec fn view(&self) -> ColumnListModel {
        match self {
            ColumnList::Columns(cs) => ColumnListModel::Columns(cs.deep_view()),
            ColumnList::Invalid => ColumnListModel::Invalid,
        }
    }
}

/// Reading a column list: the parenthesized, comma-separated names,
/// which must be followed by a single space; any other byte there
/// makes the list invalid. A byte must follow the group.
pub open spec fn spec_column_list(s: Seq<u8>) -> (ColumnListModel, Seq<u8>)
    recommends
        spec_pop_parenthesized(s).1.len() > 0,
{
    let (w, r) = spec_pop_parenthesized(s);
    if r.len() == 0 {
        (ColumnListModel::Invalid, r)
    } else if r[0] != 32 {
        (ColumnListModel::Invalid, r.drop_first())
    } else {
        (ColumnListModel::Columns(spec_split_trimmed(w)), r.drop_first())
    }
}

impl ColumnList {
    /// Parses the parenthesized column-name list of an insert
    /// statement and the single space that must follow it. The byte
    /// after the group must exist.
    pub fn from(query: &mut Vec<u8>) -> (r: ColumnList)
        requires
            spec_pop_parenthesized(old(query)@).1.len() > 0,
        ensures
            r@ == spec_column_list(old(query)@).0,
            final(query)@ == spec_column_list(old(query)@).1,
    {
        let columns_text = pop_string_inside_parenthesis(query);
        let columns = split_trimmed(&columns_text);
        let trailing_space = query[0];
        query.remove(0);
        if trailing_space != 32 {
            return ColumnList::Invalid;
        }
        ColumnList::Columns(columns)
    }
}

/// The value tuples an insert statement carries, or nothing usable.
#[derive(Debug)]
pub enum ValueList {
    Values(Vec<Vec<Vec<u8>>>),
    Invalid,
}

/// Mathematical model of a value list.
pub enum ValueListModel {
    Values(Seq<Seq<Seq<u8>>>),
    Invalid,
}

impl View for ValueList {
    type V = ValueListModel;

    open spec fn view(&self) -> ValueListModel {
        match self {
            ValueList::Values(vs) => ValueListModel::Values(vs.deep_view()),
            ValueList::Invalid => ValueListModel::Invalid,
        }
    }
}

/// Reading the value tuples: one parenthesized, comma-separated
/// group per row, until a group comes back empty; what follows that
/// empty group is the rest.
pub open spec fn spec_value_rows(s: Seq<u8>) -> (Seq<Seq<Seq<u8>>>, Seq<u8>)
    decreases s.len(),
    via spec_value_rows_decreases
{
    let (v, r) = spec_pop_parenthesized(s);
    if v.len() == 0 {
        (Seq::empty(), r)
    } else {
        let (rows, rest) = spec_value_rows(r);
        (seq![spec_split_trimmed(v)] + rows, rest)
    }
}

#[via_fn]
proof fn spec_value_rows_decreases(s: Seq<u8>) {
    lemma_pop_parenthesized_len(s);
}

/// Reading a value list: the keyword `VALUES`, then the value
/// tuples. Any other word there makes the list invalid.
pub open spec fn spec_value_list(s: Seq<u8>) -> (ValueListModel, Seq<u8>) {
    let (w, r) = spec_pop_word(s);
    if w != kw_values() {
        (ValueListModel::Invalid, r)
    } else {
        let (rows, rest) = spec_value_rows(r);
        (ValueListModel::Values(rows), rest)
    }
}

impl ValueList {
    /// Parses `VALUES (v, ...) (v, ...) ...` off the front of the
    /// query: one tuple per parenthesized group, until a group comes
    /// back empty.
    pub fn from(query: &mut Vec<u8>) -> (r: ValueList)
        ensures
            r@ == spec_value_list(old(query)@).0,
            final(query)@ == spec_value_list(old(query)@).1,
    {
        let token = pop_word(query);
        if !is_kw_values(&token) {
            return ValueList::Invalid;
        }
        let ghost s1 = query@;
        let mut rows: Vec<Vec<Vec<u8>>> = Vec::new();
        let mut value_string = pop_string_inside_parenthesis(query);
        proof {
            if value_string@.len() > 0 {
                assert(spec_value_rows(s1).0 =~= rows.deep_view() + seq![
                    spec_split_trimmed(value_string@),
                ] + spec_value_rows(query@).0);
            } else {
                assert(rows.deep_view() =~= Seq::<Seq<Seq<u8>>>::empty());
                assert(spec_value_rows(s1).0 =~= rows.deep_view());
            }
        }
        while value_string.len() > 0
            invariant
                value_string@.len() > 0 ==> {
                    &&& spec_value_rows(s1).0 == rows.deep_view() + seq![
                        spec_split_trimmed(value_string@),
                    ] + spec_value_rows(query@).0
                    &&& spec_value_rows(s1).1 == spec_value_rows(query@).1
                },
                value_string@.len() == 0 ==> {
                    &&& spec_value_rows(s1).0 == rows.deep_view()
                    &&& spec_value_rows(s1).1 == query@
                },
            decreases query@.len(), value_string@.len(),
        {
            let ghost vs0 = value_string@;
            let ghost q0 = query@;
            let ghost rows0 = rows.deep_view();
            let columns = split_trimmed(&value_string);
            rows.push(columns);
            proof {
                assert(rows.deep_view() =~= rows0 + seq![spec_split_trimmed(vs0)]);
                lemma_pop_parenthesized_len(q0);
            }
            value_string = pop_string_inside_parenthesis(query);
            proof {
                if value_string@.len() == 0 {
                    assert(spec_value_rows(q0).0 =~= Seq::<Seq<Seq<u8>>>::empty());
                    assert(spec_value_rows(s1).0 =~= rows.deep_view());
                    assert(spec_value_rows(q0).1 == query@);
                } else {
                    assert(spec_value_rows(q0).0 == seq![spec_split_trimmed(value_string@)]
                        + spec_value_rows(query@).0);
                    assert(spec_value_rows(s1).0 =~= rows.deep_view() + seq![
                        spec_split_trimmed(value_string@),
                    ] + spec_value_rows(query@).0);
                }
            }
        }
        ValueList::Values(rows)
    }
}

/// A structured statement: a scan of a table, or an insert of value
/// tuples into one.
#[derive(Debug)]
pub enum Query {
    Select(QuerySource, Scope),
    Insert(QuerySource, ColumnList, ValueList),
}

/// Mathematical model of a statement; a scan's scope is always
/// everything, so the model keeps only the source.
pub enum QueryModel {
    Select(QuerySourceModel),
    Insert(QuerySourceModel, ColumnListModel, ValueListModel),
}

impl View for Query {
    type V = QueryModel;

    open spec fn view(&self) -> QueryModel {
        match self {
            Query::Select(qs, _) => QueryModel::Select(qs@),
            Query::Insert(qs, cl, vl) => QueryModel::Insert(qs@, cl@, vl@),
        }
    }
}

/// The text of an insert statement (after the `INSERT` keyword) is
/// well-shaped when at least one byte follows its column group;
/// reading the list consumes that byte.
pub open spec fn spec_insert_shape_ok(s: Seq<u8>) -> bool {
    spec_pop_parenthesized(spec_query_source(s).1).1.len() > 0
}

/// Reading a whole statement: `SELECT` followed by a source, or
/// `INSERT` followed by a source, a column list and a value list.
pub open spec fn spec_query(s: Seq<u8>) -> (QueryModel, Seq<u8>)
    recommends
        spec_pop_word(s).0 == kw_select() || spec_pop_word(s).0 == kw_insert(),
{
    let (w, r) = spec_pop_word(s);
    if w == kw_select() {
        let (qs, r2) = spec_query_source(r);
        (QueryModel::Select(qs), r2)
    } else {
        let (qs, r2) = spec_query_source(r);
        let (cl, r3) = spec_column_list(r2);
        let (vl, r4) = spec_value_list(r3);
        (QueryModel::Insert(qs, cl, vl), r4)
    }
}

impl Query {
    /// Parses a statement. The leading word must be `SELECT` or
    /// `INSERT` — any other statement has no query form — and an
    /// insert's column group must be followed by at least one byte.
    pub fn from(query: &mut Vec<u8>) -> (r: Query)
        requires
            ({
                let (w, rest) = spec_pop_word(old(query)@);
                ||| w == kw_select()
                ||| (w == kw_insert() && spec_insert_shape_ok(rest))
            }),
        ensures
            r@ == spec_query(old(query)@).0,
            final(query)@ == spec_query(old(query)@).1,
    {
        let word = pop_word(query);
        if is_kw_select(&word) {
            let query_source = QuerySource::from(query);
            Query::Select(query_source, Scope::All)
        } else {
            proof {
                assert(word@ == kw_insert());
            }
            let query_source = QuerySource::from(query);
            let column_list = ColumnList::from(query);
            let data = ValueList::from(query);
            Query::Insert(query_source, column_list, data)
        }
    }
}

} // verus!
