use vstd::prelude::*;
use crate::text::{chars_of, char_vecs, has_char, push_chars, string_of};
pub use crate::text::strings;

verus! {

/// Whether a field must be written between quotes: it holds a `;`, a `"` or a newline.
pub open spec fn needs_quoting(s: Seq<char>) -> bool {
    s.contains(';') || s.contains('"') || s.contains('\n')
}

/// How one character of a quoted field is written: a quote is doubled.
pub open spec fn quote_piece(c: char) -> Seq<char> {
    if c == '"' {
        seq!['"', '"']
    } else {
        seq![c]
    }
}

/// `s` with every `"` doubled.
pub open spec fn double_quotes(s: Seq<char>) -> Seq<char>
    decreases s.len(),
{
    if s.len() == 0 {
        Seq::empty()
    } else {
        double_quotes(s.drop_last()) + quote_piece(s.last())
    }
}

/// A field as the CSV export writes it.
pub open spec fn escape_field(s: Seq<char>) -> Seq<char> {
    if needs_quoting(s) {
        seq!['"'] + double_quotes(s) + seq!['"']
    } else {
        s
    }
}

/// Fields escaped and separated by `;`: one line of the CSV export.
pub open spec fn join_escaped(fs: Seq<Seq<char>>) -> Seq<char>
    decreases fs.len(),
{
    if fs.len() == 0 {
        Seq::empty()
    } else if fs.len() == 1 {
        escape_field(fs[0])
    } else {
        escape_field(fs[0]) + seq![';'] + join_escaped(fs.drop_first())
    }
}

/// The `;`-separated field reader, from position `i` of `s`, with the fields read so far,
/// the field being read and whether the reader is between quotes.
pub open spec fn parse_from(
    s: Seq<char>,
    i: int,
    fields: Seq<Seq<char>>,
    cur: Seq<char>,
    in_quotes: bool,
) -> Seq<Seq<char>>
    decreases s.len() - i,
{
    if i < 0 || i >= s.len() {
        fields.push(cur)
    } else {
        let c = s[i];
        if c == '"' && !in_quotes {
            parse_from(s, i + 1, fields, cur, true)
        } else if c == '"' && in_quotes {
            if i + 1 < s.len() && s[i + 1] == '"' {
                parse_from(s, i + 2, fields, cur.push('"'), in_quotes)
            } else {
                parse_from(s, i + 1, fields, cur, false)
            }
        } else if c == ';' && !in_quotes {
            parse_from(s, i + 1, fields.push(cur), Seq::empty(), in_quotes)
        } else {
            parse_from(s, i + 1, fields, cur.push(c), in_quotes)
        }
    }
}

/// The fields of one CSV line.
pub open spec fn csv_fields(line: Seq<char>) -> Seq<Seq<char>> {
    parse_from(line, 0, Seq::empty(), Seq::empty(), false)
}

/// Writes a field for the CSV export: between quotes, with quotes doubled, when it holds
/// `;`, `"` or a newline; as it is otherwise.
pub fn escape_csv_field(s: &str) -> (r: String)
    ensures
        r@ == escape_field(s@),
{
    let cs = chars_of(s);
    let v = escape_chars(&cs);
    string_of(&v)
}

/// `escape_csv_field` on characters.
pub fn escape_chars(cs: &Vec<char>) -> (v: Vec<char>)
    ensures
        v@ == escape_field(cs@),
{
    if has_char(cs, ';') || has_char(cs, '"') || has_char(cs, '\n') {
        let mut out: Vec<char> = Vec::new();
        out.push('"');
        let mut i: usize = 0;
        while i < cs.len()
            invariant
                0 <= i <= cs@.len(),
                out@ == seq!['"'] + double_quotes(cs@.take(i as int)),
            decreases cs.len() - i,
        {
            let c = cs[i];
            if c == '"' {
                out.push('"');
                out.push('"');
            } else {
                out.push(c);
            }
            proof {
                let t = cs@.take(i + 1);
                assert(t.drop_last() == cs@.take(i as int));
                assert(t.last() == c);
            }
            i = i + 1;
        }
        out.push('"');
        assert(cs@.take(cs@.len() as int) == cs@);
        out
    } else {
        let mut out: Vec<char> = Vec::new();
        push_chars(&mut out, cs);
        out
    }
}

/// Splits one CSV line into its fields: `;` separates fields outside quotes, a `"` opens or
/// closes a quoted run, and `""` inside quotes stands for one `"`.
pub fn parse_csv_line(line: &str) -> (r: Vec<String>)
    ensures
        strings(r@) == csv_fields(line@),
{
    let cs = chars_of(line);
    let fields = parse_chars(&cs);
    let mut out: Vec<String> = Vec::new();
    let mut k: usize = 0;
    while k < fields.len()
        invariant
            0 <= k <= fields@.len(),
            strings(out@) == char_vecs(fields@).take(k as int),
        decreases fields.len() - k,
    {
        let s = string_of(&fields[k]);
        let ghost prev = out@;
        out.push(s);
        proof {
            assert(out@ == prev.push(s));
            assert(s@ == fields@[k as int]@);
            assert(strings(prev).len() == prev.len());
            assert(prev.len() == k);
            assert(strings(out@)[k as int] == fields@[k as int]@);
            assert(strings(prev) == strings(out@).take(k as int));
            assert(strings(out@) =~= char_vecs(fields@).take(k + 1));
        }
        k = k + 1;
    }
    assert(char_vecs(fields@).take(fields@.len() as int) =~= char_vecs(fields@));
    out
}

/// `parse_csv_line` on characters.
pub fn parse_chars(cs: &Vec<char>) -> (r: Vec<Vec<char>>)
    ensures
        char_vecs(r@) == csv_fields(cs@),
{
    let mut fields: Vec<Vec<char>> = Vec::new();
    let mut current: Vec<char> = Vec::new();
    let mut in_quotes = false;
    let mut i: usize = 0;
    assert(char_vecs(fields@) =~= Seq::<Seq<char>>::empty());
    while i < cs.len()
        invariant
            0 <= i <= cs@.len(),
            csv_fields(cs@) == parse_from(cs@, i as int, char_vecs(fields@), current@, in_quotes),
        decreases cs.len() - i,
    {
        let c = cs[i];
        if c == '"' && !in_quotes {
            in_quotes = true;
            i = i + 1;
        } else if c == '"' && in_quotes {
            if i + 1 < cs.len() && cs[i + 1] == '"' {
                current.push('"');
                i = i + 2;
            } else {
                in_quotes = false;
                i = i + 1;
            }
        } else if c == ';' && !in_quotes {
            let ghost before = char_vecs(fields@);
            let done = current;
            current = Vec::new();
            fields.push(done);
            assert(char_vecs(fields@) =~= before.push(done@));
            i = i + 1;
        } else {
            current.push(c);
            i = i + 1;
        }
    }
    let ghost before = char_vecs(fields@);
    let last = current;
    fields.push(last);
    assert(char_vecs(fields@) =~= before.push(last@));
    fields
}

proof fn lemma_double_quotes_append(a: Seq<char>, b: Seq<char>)
    ensures
        double_quotes(a + b) == double_quotes(a) + double_quotes(b),
    decreases b.len(),
{
    if b.len() == 0 {
        assert(a + b == a);
        assert(double_quotes(b) == Seq::<char>::empty());
    } else {
        lemma_double_quotes_append(a, b.drop_last());
        assert((a + b).drop_last() == a + b.drop_last());
        assert((a + b).last() == b.last());
    }
}

proof fn lemma_plain_run(s: Seq<char>, i: int, fields: Seq<Seq<char>>, f: Seq<char>, k: int)
    requires
        0 <= k <= f.len(),
        0 <= i,
        i + f.len() <= s.len(),
        s.subrange(i, i + f.len()) == f,
        !f.contains(';'),
        !f.contains('"'),
    ensures
        parse_from(s, i + k, fields, f.take(k), false) == parse_from(s, i + f.len(), fields, f, false),
    decreases f.len() - k,
{
    if k < f.len() {
        assert(s[i + k] == f[k]);
        assert(f[k] != ';' && f[k] != '"');
        assert(f.take(k).push(f[k]) == f.take(k + 1));
        lemma_plain_run(s, i, fields, f, k + 1);
    } else {
        assert(f.take(k) == f);
    }
}

proof fn lemma_quoted_run(s: Seq<char>, j: int, fields: Seq<Seq<char>>, f: Seq<char>, k: int)
    requires
        0 <= k <= f.len(),
        0 <= j,
        j + double_quotes(f).len() < s.len(),
        s.subrange(j, j + double_quotes(f).len()) == double_quotes(f),
        s[j + double_quotes(f).len()] == '"',
    ensures
        parse_from(s, j + double_quotes(f.take(k)).len(), fields, f.take(k), true)
            == parse_from(s, j + double_quotes(f).len(), fields, f, true),
    decreases f.len() - k,
{
    let d = double_quotes(f);
    if k < f.len() {
        let t0 = f.take(k);
        let t1 = f.take(k + 1);
        assert(t1.drop_last() == t0);
        assert(t1.last() == f[k]);
        let q = quote_piece(f[k]);
        assert(double_quotes(t1) == double_quotes(t0) + q);
        lemma_double_quotes_append(t1, f.skip(k + 1));
        assert(t1 + f.skip(k + 1) == f);
        let p = j + double_quotes(t0).len();
        assert(d == double_quotes(t0) + q + double_quotes(f.skip(k + 1)));
        assert(s[p] == d[double_quotes(t0).len() as int]);
        assert(d[double_quotes(t0).len() as int] == q[0]);
        if f[k] == '"' {
            assert(s[p + 1] == d[double_quotes(t0).len() + 1int]);
            assert(d[double_quotes(t0).len() + 1int] == q[1]);
            assert(t0.push('"') == t1);
        } else {
            assert(t0.push(f[k]) == t1);
        }
        lemma_quoted_run(s, j, fields, f, k + 1);
    } else {
        assert(f.take(k) == f);
    }
}

proof fn lemma_field(s: Seq<char>, i: int, fields: Seq<Seq<char>>, f: Seq<char>)
    requires
        0 <= i,
        i + escape_field(f).len() <= s.len(),
        s.subrange(i, i + escape_field(f).len()) == escape_field(f),
        i + escape_field(f).len() == s.len() || s[i + escape_field(f).len()] == ';',
    ensures
        parse_from(s, i, fields, Seq::empty(), false)
            == parse_from(s, i + escape_field(f).len(), fields, f, false),
{
    let e = escape_field(f);
    if needs_quoting(f) {
        let d = double_quotes(f);
        let j = i + 1;
        assert(s[i] == e[0]);
        assert(s.subrange(j, j + d.len()) == d) by {
            assert forall|m: int| 0 <= m < d.len() implies s.subrange(j, j + d.len())[m] == d[m] by {
                assert(s[j + m] == e[m + 1]);
            }
        }
        assert(s[j + d.len()] == e[d.len() + 1int]);
        assert(double_quotes(f.take(0)) == Seq::<char>::empty()) by {
            assert(f.take(0).len() == 0);
        }
        assert(f.take(0) == Seq::<char>::empty());
        lemma_quoted_run(s, j, fields, f, 0);
    } else {
        assert(f.take(0) == Seq::<char>::empty());
        lemma_plain_run(s, i, fields, f, 0);
    }
}

proof fn lemma_fields(s: Seq<char>, i: int, fields: Seq<Seq<char>>, fs: Seq<Seq<char>>)
    requires
        fs.len() >= 1,
        0 <= i <= s.len(),
        s.skip(i) == join_escaped(fs),
    ensures
        parse_from(s, i, fields, Seq::empty(), false) == fields + fs,
    decreases fs.len(),
{
    let e = escape_field(fs[0]);
    let j = join_escaped(fs);
    if fs.len() == 1 {
        assert(j == e);
    } else {
        assert(j == e + seq![';'] + join_escaped(fs.drop_first()));
    }
    assert(j.subrange(0, e.len() as int) == e);
    assert(s.subrange(i, i + e.len()) == e) by {
        assert forall|m: int| 0 <= m < e.len() implies s.subrange(i, i + e.len())[m] == e[m] by {
            assert(s[i + m] == s.skip(i)[m]);
        }
    }
    if fs.len() == 1 {
        assert(i + e.len() == s.len());
        lemma_field(s, i, fields, fs[0]);
        assert(fields.push(fs[0]) == fields + fs);
    } else {
        assert(s[i + e.len()] == s.skip(i)[e.len() as int]);
        lemma_field(s, i, fields, fs[0]);
        let rest = fs.drop_first();
        assert(s.skip(i + e.len() + 1) == join_escaped(rest)) by {
            assert(j == e + seq![';'] + join_escaped(rest));
            assert(s.skip(i + e.len() + 1) =~= j.skip(e.len() + 1int));
        }
        lemma_fields(s, i + e.len() + 1, fields.push(fs[0]), rest);
        assert(fields.push(fs[0]) + rest == fields + fs);
    }
}

/// Reading back a line that the export wrote gives the fields that were written.
pub proof fn lemma_csv_round_trip(fs: Seq<Seq<char>>)
    requires
        fs.len() >= 1,
    ensures
        csv_fields(join_escaped(fs)) == fs,
{
    let s = join_escaped(fs);
    assert(s.skip(0) == s);
    lemma_fields(s, 0, Seq::empty(), fs);
    assert(Seq::<Seq<char>>::empty() + fs == fs);
}

} // verus!
