use vstd::prelude::*;
use crate::csv::{csv_fields, double_quotes, escape_chars, escape_field, join_escaped, lemma_csv_round_trip, needs_quoting, parse_chars, quote_piece};
use crate::profile::{available_status, max_sort_order, Credentials, Profile, ProfileGroup, ProfileManager, ProfileView};
use crate::table::{has_key, key_index, lemma_key_index, lookup, unique_keys, upserted, views, Keyed};
use crate::text::{
    char_vecs, chars_of, is_ws, join_seqs, join_with, lead_ws, line_chars, push_chars, split_at_char, split_chars, string_of, strings,
    text_lines, trail_ws, trim, trim_chars,
};

verus! {

/// The header line of the profile CSV export.
pub open spec fn csv_header() -> Seq<char> {
    "name;color;description;tags;email;password;url;group\n"@
}

/// The position of the first group with id `id`, or -1.
pub open spec fn group_position(groups: Seq<ProfileGroup>, id: Seq<char>) -> int
    decreases groups.len(),
{
    if groups.len() == 0 {
        -1
    } else if group_position(groups.drop_last(), id) >= 0 {
        group_position(groups.drop_last(), id)
    } else if groups.last().id@ == id {
        groups.len() - 1
    } else {
        -1
    }
}

proof fn lemma_group_position_none(g: Seq<ProfileGroup>, id: Seq<char>, i: int)
    requires
        0 <= i <= g.len(),
        forall|k: int| 0 <= k < i ==> #[trigger] g[k].id@ != id,
    ensures
        group_position(g.take(i), id) == -1,
    decreases i,
{
    if i > 0 {
        assert(g.take(i).drop_last() == g.take(i - 1));
        lemma_group_position_none(g, id, i - 1);
    } else {
        assert(g.take(0).len() == 0);
    }
}

proof fn lemma_group_position_hit(g: Seq<ProfileGroup>, id: Seq<char>, i: int)
    requires
        0 <= i < g.len(),
        group_position(g.take(i), id) == -1,
        g[i].id@ == id,
    ensures
        group_position(g, id) == i,
    decreases g.len(),
{
    if g.len() == i + 1 {
        assert(g.drop_last() == g.take(i));
    } else {
        let d = g.drop_last();
        assert(d.take(i) == g.take(i));
        lemma_group_position_hit(d, id, i);
    }
}

/// The name of the profile's group, found among `groups` by id; empty when it has none or the
/// group is gone.
pub open spec fn group_name_of(groups: Seq<ProfileGroup>, group_id: Option<String>) -> Seq<char> {
    match group_id {
        Some(gid) => if group_position(groups, gid@) >= 0 {
            groups[group_position(groups, gid@)].name@
        } else {
            Seq::empty()
        },
        None => Seq::empty(),
    }
}

/// The eight exported fields of a profile: name, color, description, tags joined by `,`,
/// e-mail, password and URL of its credentials (empty without), and group name.
pub open spec fn export_fields(p: Profile, groups: Seq<ProfileGroup>) -> Seq<Seq<char>> {
    let (email, password, url) = match p.credentials {
        Some(c) => (c.email@, c.password@, c.url@),
        None => (Seq::<char>::empty(), Seq::<char>::empty(), Seq::<char>::empty()),
    };
    seq![
        p.name@,
        p.color@,
        p.description@,
        join_seqs(strings(p.tags@), ","@),
        email,
        password,
        url,
        group_name_of(groups, p.group_id),
    ]
}

/// The CSV export of `profiles`: the header, then one line per profile.
pub open spec fn export_csv(profiles: Seq<Profile>, groups: Seq<ProfileGroup>) -> Seq<char>
    decreases profiles.len(),
{
    if profiles.len() == 0 {
        csv_header()
    } else {
        export_csv(profiles.drop_last(), groups) + join_escaped(export_fields(profiles.last(), groups))
            + seq!['\n']
    }
}

/// The name of the group with id `gid` among `groups`, empty when there is none.
fn group_name_for(groups: &Vec<ProfileGroup>, group_id: &Option<String>) -> (r: Vec<char>)
    ensures
        r@ == group_name_of(groups@, *group_id),
{
    match group_id {
        None => Vec::new(),
        Some(gid) => {
            let mut i: usize = 0;
            while i < groups.len()
                invariant
                    0 <= i <= groups@.len(),
                    *group_id == Some(*gid),
                    forall|k: int| 0 <= k < i ==> #[trigger] groups@[k].id@ != gid@,
                decreases groups.len() - i,
            {
                if crate::text::str_eq(groups[i].id.as_str(), gid.as_str()) {
                    proof {
                        lemma_group_position_none(groups@, gid@, i as int);
                        lemma_group_position_hit(groups@, gid@, i as int);
                    }
                    let r = chars_of(groups[i].name.as_str());
                    return r;
                }
                i = i + 1;
            }
            proof {
                lemma_group_position_none(groups@, gid@, groups@.len() as int);
                assert(groups@.take(groups@.len() as int) == groups@);
            }
            Vec::new()
        },
    }
}

/// Appends `fields`, escaped and separated by `;`, to `out`.
fn push_escaped_line(out: &mut Vec<char>, fields: &Vec<Vec<char>>)
    requires
        fields@.len() >= 1,
    ensures
        final(out)@ == old(out)@ + join_escaped(crate::text::char_vecs(fields@)),
{
    let ghost fs = crate::text::char_vecs(fields@);
    let n = fields.len();
    let mut k: usize = n;
    let mut tail: Vec<char> = escape_chars(&fields[n - 1]);
    assert(fs.subrange(n - 1, n as int) =~= seq![fs[n - 1]]);
    while k > 1
        invariant
            1 <= k <= n,
            n == fields@.len(),
            fs == crate::text::char_vecs(fields@),
            tail@ == join_escaped(fs.subrange(k - 1, n as int)),
        decreases k,
    {
        let mut v = escape_chars(&fields[k - 2]);
        v.push(';');
        push_chars(&mut v, &tail);
        proof {
            let s = fs.subrange(k - 2, n as int);
            assert(s.drop_first() =~= fs.subrange(k - 1, n as int));
            assert(s[0] == fs[k - 2]);
        }
        tail = v;
        k = k - 1;
    }
    assert(fs.subrange(0, n as int) =~= fs);
    push_chars(out, &tail);
}

/// The profiles as the CSV export writes them: a header, then per profile its name, color,
/// description, tags, credentials and group name, escaped and separated by `;`.
pub fn export_profiles_csv(profiles: &Vec<Profile>, groups: &Vec<ProfileGroup>) -> (csv: String)
    ensures
        csv@ == export_csv(profiles@, groups@),
{
    let mut out: Vec<char> = chars_of("name;color;description;tags;email;password;url;group\n");
    let mut i: usize = 0;
    while i < profiles.len()
        invariant
            0 <= i <= profiles@.len(),
            out@ == export_csv(profiles@.take(i as int), groups@),
        decreases profiles.len() - i,
    {
        let p = &profiles[i];
        let mut fields: Vec<Vec<char>> = Vec::new();
        fields.push(chars_of(p.name.as_str()));
        fields.push(chars_of(p.color.as_str()));
        fields.push(chars_of(p.description.as_str()));
        let tags = join_with(&p.tags, ",");
        fields.push(chars_of(tags.as_str()));
        match &p.credentials {
            Some(c) => {
                fields.push(chars_of(c.email.as_str()));
                fields.push(chars_of(c.password.as_str()));
                fields.push(chars_of(c.url.as_str()));
            },
            None => {
                fields.push(Vec::new());
                fields.push(Vec::new());
                fields.push(Vec::new());
            },
        }
        fields.push(group_name_for(groups, &p.group_id));
        assert(crate::text::char_vecs(fields@) =~= export_fields(*p, groups@));
        push_escaped_line(&mut out, &fields);
        out.push('\n');
        proof {
            let t = profiles@.take(i + 1);
            assert(t.drop_last() == profiles@.take(i as int));
            assert(t.last() == *p);
        }
        i = i + 1;
    }
    assert(profiles@.take(profiles@.len() as int) == profiles@);
    string_of(&out)
}


/// The fields of the lines that make profiles: each line trimmed, read as CSV, and kept when it
/// has at least eight fields and a name.
pub open spec fn accepted_fields(lines: Seq<Seq<char>>) -> Seq<Seq<Seq<char>>>
    decreases lines.len(),
{
    if lines.len() == 0 {
        Seq::empty()
    } else {
        let r = accepted_fields(lines.drop_last());
        let t = trim(lines.last());
        let f = csv_fields(t);
        if t.len() > 0 && f.len() >= 8 && f[0].len() > 0 {
            r.push(f)
        } else {
            r
        }
    }
}

/// The rows of a CSV import: the accepted lines after the header line.
pub open spec fn import_fields(csv: Seq<char>) -> Seq<Seq<Seq<char>>> {
    let lines = text_lines(csv);
    if lines.len() == 0 {
        Seq::empty()
    } else {
        accepted_fields(lines.drop_first())
    }
}

/// The header line of the export, without its newline.
pub open spec fn header_line() -> Seq<char> {
    "name;color;description;tags;email;password;url;group"@
}

/// The line the export writes for `p`, without its newline.
pub open spec fn export_line(p: Profile, groups: Seq<ProfileGroup>) -> Seq<char> {
    join_escaped(export_fields(p, groups))
}

/// The lines the export writes for `profiles`, in order.
pub open spec fn export_lines(profiles: Seq<Profile>, groups: Seq<ProfileGroup>) -> Seq<Seq<char>> {
    profiles.map_values(|p: Profile| export_line(p, groups))
}

/// Whether the export line of `p` reads back as written: `p` has a name, none of its exported
/// fields holds a newline, and the line neither begins nor ends with whitespace.
pub open spec fn reads_back(p: Profile, groups: Seq<ProfileGroup>) -> bool {
    let line = export_line(p, groups);
    &&& p.name@.len() > 0
    &&& forall|k: int| 0 <= k < 8 ==> !(#[trigger] export_fields(p, groups)[k]).contains('\n')
    &&& !is_ws(line[0])
    &&& !is_ws(line.last())
}

proof fn lemma_double_quotes_free(s: Seq<char>, c: char)
    requires
        c != '"',
        !s.contains(c),
    ensures
        !double_quotes(s).contains(c),
    decreases s.len(),
{
    if s.len() > 0 {
        let d = s.drop_last();
        assert(!d.contains(c)) by {
            if d.contains(c) {
                let k = choose|k: int| 0 <= k < d.len() && d[k] == c;
                assert(s[k] == c);
            }
        }
        assert(s.last() != c) by {
            assert(s[s.len() - 1] == s.last());
        }
        lemma_double_quotes_free(d, c);
        let a = double_quotes(d);
        let b = quote_piece(s.last());
        assert(double_quotes(s) == a + b);
        assert forall|k: int| 0 <= k < (a + b).len() implies (a + b)[k] != c by {
            if k >= a.len() {
                assert((a + b)[k] == b[k - a.len()]);
            } else {
                assert((a + b)[k] == a[k]);
            }
        }
    }
}

proof fn lemma_join_escaped_free(fs: Seq<Seq<char>>, c: char)
    requires
        c != '"',
        c != ';',
        forall|k: int| 0 <= k < fs.len() ==> !(#[trigger] fs[k]).contains(c),
    ensures
        !join_escaped(fs).contains(c),
    decreases fs.len(),
{
    if fs.len() > 0 {
        let f = fs[0];
        assert(!f.contains(c));
        let e = escape_field(f);
        assert(!e.contains(c)) by {
            if needs_quoting(f) {
                lemma_double_quotes_free(f, c);
                let q = double_quotes(f);
                assert forall|k: int| 0 <= k < e.len() implies e[k] != c by {
                    if k > 0 && k < e.len() - 1 {
                        assert(e[k] == q[k - 1]);
                    }
                }
            }
        }
        if fs.len() > 1 {
            let rest = fs.drop_first();
            assert forall|k: int| 0 <= k < rest.len() implies !(#[trigger] rest[k]).contains(c) by {
                assert(rest[k] == fs[k + 1]);
            }
            lemma_join_escaped_free(rest, c);
            let j = join_escaped(rest);
            let t = e + seq![';'] + j;
            assert forall|k: int| 0 <= k < t.len() implies t[k] != c by {
                if k < e.len() {
                    assert(t[k] == e[k]);
                } else if k > e.len() {
                    assert(t[k] == j[k - e.len() - 1]);
                }
            }
        }
    }
}

proof fn lemma_trim_plain(s: Seq<char>)
    requires
        s.len() > 0,
        !is_ws(s[0]),
        !is_ws(s.last()),
    ensures
        trim(s) == s,
{
    assert(lead_ws(s) == 0);
    assert(s.skip(0) =~= s);
    assert(trail_ws(s) == 0);
    assert(s.take(s.len() as int) =~= s);
}

proof fn lemma_header_pieces()
    ensures
        split_at_char(csv_header(), '\n') == seq![header_line(), Seq::<char>::empty()],
{
    reveal_strlit("name;color;description;tags;email;password;url;group\n");
    reveal_strlit("name;color;description;tags;email;password;url;group");
    let h = header_line();
    assert(!h.contains('\n'));
    assert(split_at_char(Seq::<char>::empty(), '\n') == seq![Seq::<char>::empty()]);
    crate::text::lemma_split_line(Seq::<char>::empty(), h, '\n');
    assert(Seq::<char>::empty() + h + seq!['\n'] =~= csv_header());
    assert(seq![Seq::<char>::empty()].drop_last().push(h).push(Seq::<char>::empty()) =~= seq![
        h,
        Seq::<char>::empty(),
    ]);
}

proof fn lemma_export_pieces(profiles: Seq<Profile>, groups: Seq<ProfileGroup>)
    requires
        forall|i: int| 0 <= i < profiles.len() ==> !(#[trigger] export_line(profiles[i], groups)).contains('\n'),
    ensures
        split_at_char(export_csv(profiles, groups), '\n') == seq![header_line()] + export_lines(profiles, groups)
            + seq![Seq::<char>::empty()],
    decreases profiles.len(),
{
    if profiles.len() == 0 {
        lemma_header_pieces();
        assert(seq![header_line()] + export_lines(profiles, groups) + seq![Seq::<char>::empty()] =~= seq![
            header_line(),
            Seq::<char>::empty(),
        ]);
    } else {
        let d = profiles.drop_last();
        assert forall|i: int| 0 <= i < d.len() implies !(#[trigger] export_line(d[i], groups)).contains('\n') by {
            assert(d[i] == profiles[i]);
        }
        lemma_export_pieces(d, groups);
        let p = profiles.last();
        assert(!export_line(p, groups).contains('\n')) by {
            assert(profiles[profiles.len() - 1] == p);
        }
        crate::text::lemma_split_line(export_csv(d, groups), export_line(p, groups), '\n');
        assert(export_lines(profiles, groups) =~= export_lines(d, groups).push(export_line(p, groups)));
        assert((seq![header_line()] + export_lines(d, groups) + seq![Seq::<char>::empty()]).drop_last().push(
            export_line(p, groups),
        ).push(Seq::<char>::empty()) =~= seq![header_line()] + export_lines(profiles, groups) + seq![
            Seq::<char>::empty(),
        ]);
    }
}

proof fn lemma_accepted_export(profiles: Seq<Profile>, groups: Seq<ProfileGroup>)
    requires
        forall|i: int| 0 <= i < profiles.len() ==> reads_back(#[trigger] profiles[i], groups),
    ensures
        accepted_fields(export_lines(profiles, groups)) == profiles.map_values(
            |p: Profile| export_fields(p, groups),
        ),
    decreases profiles.len(),
{
    if profiles.len() > 0 {
        let d = profiles.drop_last();
        assert forall|i: int| 0 <= i < d.len() implies reads_back(#[trigger] d[i], groups) by {
            assert(d[i] == profiles[i]);
        }
        lemma_accepted_export(d, groups);
        let lines = export_lines(profiles, groups);
        assert(lines.drop_last() =~= export_lines(d, groups));
        let p = profiles.last();
        assert(reads_back(p, groups)) by {
            assert(profiles[profiles.len() - 1] == p);
        }
        let fs = export_fields(p, groups);
        let line = export_line(p, groups);
        assert(lines.last() == line);
        assert(line.len() > 0) by {
            assert(fs.len() == 8);
            assert(line == escape_field(fs[0]) + seq![';'] + join_escaped(fs.drop_first()));
        }
        lemma_trim_plain(line);
        lemma_csv_round_trip(fs);
        assert(fs[0] == p.name@);
        assert(profiles.map_values(|q: Profile| export_fields(q, groups)) =~= d.map_values(
            |q: Profile| export_fields(q, groups),
        ).push(fs));
    } else {
        assert(export_lines(profiles, groups) =~= Seq::<Seq<char>>::empty());
        assert(profiles.map_values(|q: Profile| export_fields(q, groups)) =~= Seq::<Seq<Seq<char>>>::empty());
    }
}

/// Importing what the export wrote gives back, profile by profile and in order, the fields the
/// export wrote: as long as every profile has a name, no exported field holds a newline and no
/// exported line begins or ends with whitespace.
pub proof fn law_export_import_round_trip(profiles: Seq<Profile>, groups: Seq<ProfileGroup>)
    requires
        forall|i: int| 0 <= i < profiles.len() ==> reads_back(#[trigger] profiles[i], groups),
    ensures
        import_fields(export_csv(profiles, groups)) == profiles.map_values(
            |p: Profile| export_fields(p, groups),
        ),
{
    assert forall|i: int| 0 <= i < profiles.len() implies !(#[trigger] export_line(profiles[i], groups)).contains(
        '\n',
    ) by {
        let fs = export_fields(profiles[i], groups);
        assert(reads_back(profiles[i], groups));
        assert forall|k: int| 0 <= k < fs.len() implies !(#[trigger] fs[k]).contains('\n') by {}
        lemma_join_escaped_free(fs, '\n');
    }
    lemma_export_pieces(profiles, groups);
    let pieces = split_at_char(export_csv(profiles, groups), '\n');
    let lines = seq![header_line()] + export_lines(profiles, groups);
    assert(pieces.drop_last() =~= lines);
    assert(text_lines(export_csv(profiles, groups)) == lines);
    assert(lines.drop_first() =~= export_lines(profiles, groups));
    lemma_accepted_export(profiles, groups);
}

/// The color a profile gets when its CSV row leaves it empty.
pub open spec fn default_color() -> Seq<char> {
    "#6366F1"@
}

/// The login address of credentials whose CSV row leaves it empty.
pub open spec fn default_login_url() -> Seq<char> {
    "https://accounts.google.com"@
}

/// A profile to create from one CSV row.
#[derive(Debug)]
pub struct ImportRow {
    pub name: String,
    pub color: String,
    pub description: String,
    pub tags: Vec<String>,
    pub credentials: Option<Credentials>,
    pub group_name: String,
}

/// `row` is what the fields `f` of a CSV row describe: name, color (default when empty),
/// description, tags cut at `,` and trimmed (none when empty), credentials when the e-mail is
/// given (with the default URL when none), and group name.
pub open spec fn row_of(row: ImportRow, f: Seq<Seq<char>>) -> bool {
    &&& row.name@ == f[0]
    &&& row.color@ == (if f[1].len() == 0 { default_color() } else { f[1] })
    &&& row.description@ == f[2]
    &&& strings(row.tags@) == (if f[3].len() == 0 {
        Seq::<Seq<char>>::empty()
    } else {
        split_at_char(f[3], ',').map_values(|p: Seq<char>| trim(p))
    })
    &&& (if f[4].len() == 0 {
        row.credentials is None
    } else {
        row.credentials matches Some(c) && c.email@ == f[4] && c.password@ == f[5] && c.url@ == (if f[6].len()
            == 0 {
            default_login_url()
        } else {
            f[6]
        })
    })
    &&& row.group_name@ == f[7]
}

fn string_of_chars(v: &Vec<char>) -> (s: String)
    ensures
        s@ == v@,
{
    string_of(v)
}

/// The profile a CSV row with at least eight fields describes.
fn row_from_fields(f: &Vec<Vec<char>>) -> (row: ImportRow)
    requires
        f@.len() >= 8,
    ensures
        row_of(row, char_vecs(f@)),
{
    let ghost fv = char_vecs(f@);
    let color = if f[1].len() == 0 {
        "#6366F1".to_string()
    } else {
        string_of_chars(&f[1])
    };
    let mut tags: Vec<String> = Vec::new();
    if f[3].len() > 0 {
        let pieces = split_chars(&f[3], ',');
        let ghost ps = split_at_char(fv[3], ',');
        let mut k: usize = 0;
        while k < pieces.len()
            invariant
                0 <= k <= pieces@.len(),
                char_vecs(pieces@) == ps,
                strings(tags@) == ps.take(k as int).map_values(|p: Seq<char>| trim(p)),
            decreases pieces.len() - k,
        {
            let t = trim_chars(&pieces[k]);
            let ghost before = tags@;
            tags.push(string_of_chars(&t));
            assert(strings(tags@) =~= ps.take(k + 1).map_values(|p: Seq<char>| trim(p))) by {
                assert(strings(tags@) =~= strings(before).push(trim(ps[k as int])));
            }
            k = k + 1;
        }
        assert(ps.take(ps.len() as int) == ps);
    } else {
        assert(strings(tags@) =~= Seq::<Seq<char>>::empty());
    }
    let credentials = if f[4].len() > 0 {
        let url = if f[6].len() == 0 {
            "https://accounts.google.com".to_string()
        } else {
            string_of_chars(&f[6])
        };
        Some(Credentials { email: string_of_chars(&f[4]), password: string_of_chars(&f[5]), url })
    } else {
        None
    };
    ImportRow {
        name: string_of_chars(&f[0]),
        color,
        description: string_of_chars(&f[2]),
        tags,
        credentials,
        group_name: string_of_chars(&f[7]),
    }
}

/// Reads a profile CSV: the header line is skipped, every other line is trimmed and read as
/// `;`-separated fields, and lines that are empty, have fewer than eight fields or no name are
/// skipped.
pub fn parse_import_rows(csv_data: &str) -> (rows: Vec<ImportRow>)
    ensures
        rows@.len() == import_fields(csv_data@).len(),
        forall|i: int| 0 <= i < rows@.len() ==> row_of(#[trigger] rows@[i], import_fields(csv_data@)[i]),
{
    let pieces = line_chars(csv_data);
    let ghost lines = char_vecs(pieces@);
    let mut rows: Vec<ImportRow> = Vec::new();
    if pieces.len() == 0 {
        return rows;
    }
    let ghost body = lines.drop_first();
    let mut i: usize = 1;
    while i < pieces.len()
        invariant
            1 <= i <= pieces@.len(),
            lines == char_vecs(pieces@),
            body == lines.drop_first(),
            rows@.len() == accepted_fields(body.take(i - 1)).len(),
            forall|j: int| 0 <= j < rows@.len() ==> row_of(#[trigger] rows@[j], accepted_fields(body.take(i - 1))[j]),
        decreases pieces.len() - i,
    {
        let ghost prev = accepted_fields(body.take(i - 1));
        proof {
            let t = body.take(i as int);
            assert(t.drop_last() == body.take(i - 1));
            assert(t.last() == lines[i as int]);
        }
        let t = trim_chars(&pieces[i]);
        let f = parse_chars(&t);
        if t.len() > 0 && f.len() >= 8 && f[0].len() > 0 {
            let row = row_from_fields(&f);
            let ghost before_rows = rows@;
            rows.push(row);
            assert forall|j: int| 0 <= j < rows@.len() implies row_of(
                #[trigger] rows@[j],
                accepted_fields(body.take(i as int))[j],
            ) by {
                if j < rows@.len() - 1 {
                    assert(rows@[j] == before_rows[j]);
                    assert(accepted_fields(body.take(i as int))[j] == prev[j]);
                }
            }
        }
        i = i + 1;
    }
    assert(body.take(body.len() as int) == body);
    rows
}


/// The position of the first group of `groups` named `name`, or -1.
pub open spec fn group_named(groups: Seq<ProfileGroup>, name: Seq<char>) -> int
    decreases groups.len(),
{
    if groups.len() == 0 {
        -1
    } else if group_named(groups.drop_last(), name) >= 0 {
        group_named(groups.drop_last(), name)
    } else if groups.last().name@ == name {
        groups.len() - 1
    } else {
        -1
    }
}

proof fn lemma_group_named_none(g: Seq<ProfileGroup>, name: Seq<char>, i: int)
    requires
        0 <= i <= g.len(),
        forall|k: int| 0 <= k < i ==> #[trigger] g[k].name@ != name,
    ensures
        group_named(g.take(i), name) == -1,
    decreases i,
{
    if i > 0 {
        assert(g.take(i).drop_last() == g.take(i - 1));
        lemma_group_named_none(g, name, i - 1);
    } else {
        assert(g.take(0).len() == 0);
    }
}

proof fn lemma_group_named_hit(g: Seq<ProfileGroup>, name: Seq<char>, i: int)
    requires
        0 <= i < g.len(),
        group_named(g.take(i), name) == -1,
        g[i].name@ == name,
    ensures
        group_named(g, name) == i,
    decreases g.len(),
{
    if g.len() == i + 1 {
        assert(g.drop_last() == g.take(i));
    } else {
        let d = g.drop_last();
        assert(d.take(i) == g.take(i));
        lemma_group_named_hit(d, name, i);
    }
}

/// The first group of `groups` named `name`.
fn find_group_named(groups: &Vec<ProfileGroup>, name: &str) -> (r: Option<usize>)
    ensures
        match r {
            Some(k) => k == group_named(groups@, name@) && k < groups@.len(),
            None => group_named(groups@, name@) == -1,
        },
{
    let mut i: usize = 0;
    while i < groups.len()
        invariant
            0 <= i <= groups@.len(),
            forall|k: int| 0 <= k < i ==> #[trigger] groups@[k].name@ != name@,
        decreases groups.len() - i,
    {
        if crate::text::str_eq(groups[i].name.as_str(), name) {
            proof {
                lemma_group_named_none(groups@, name@, i as int);
                lemma_group_named_hit(groups@, name@, i as int);
            }
            return Some(i);
        }
        i = i + 1;
    }
    proof {
        lemma_group_named_none(groups@, name@, groups@.len() as int);
        assert(groups@.take(groups@.len() as int) == groups@);
    }
    None
}

/// Profiles whose views agree have the same keys, and the profile a view update puts under a
/// key is found there.
proof fn lemma_profile_view_update(a: Seq<Profile>, b: Seq<Profile>, k: Seq<char>, q: Profile)
    requires
        unique_keys(a),
        has_key(a, k),
        q.id@ == k,
        views(b) == views(a).update(key_index(a, k), q@),
    ensures
        unique_keys(b),
        lookup(b, k) matches Some(y) && y@ == q@,
{
    let i = key_index(a, k);
    assert(0 <= i < a.len() && a[i].key() == k);
    assert(views(b).len() == b.len());
    assert(views(a).len() == a.len());
    assert(b.len() == a.len());
    assert forall|j: int| 0 <= j < b.len() implies #[trigger] b[j].key() == (if j == i { k } else { a[j].key() }) by {
        assert(views(b)[j] == b[j]@);
        if j != i {
            assert(views(a)[j] == a[j]@);
        }
    }
    assert(b[i].key() == k);
    assert(has_key(b, k));
    let y = key_index(b, k);
    assert(b[y].key() == k);
    if y != i {
        assert(a[y].key() == k);
        assert(a[i].key() == k);
    }
    assert(views(b)[i] == b[i]@);
}

/// The profile created from `row` carries its fields.
pub open spec fn imported_as(q: Profile, row: ImportRow) -> bool {
    &&& q.name@ == row.name@
    &&& q.color@ == row.color@
    &&& q.description@ == row.description@
    &&& strings(q.tags@) == strings(row.tags@)
    &&& q.credentials == row.credentials
    &&& q.status@ == available_status()
    &&& q.proxy is None
    &&& q.fingerprint is None
}

/// The view of the profile created from `row`: its fields, available, with no proxy or
/// fingerprint.
pub open spec fn imported_view(v: ProfileView, row: ImportRow) -> bool {
    &&& v.name@ == row.name@
    &&& v.color@ == row.color@
    &&& v.description@ == row.description@
    &&& strings(v.tags) == strings(row.tags@)
    &&& v.credentials == row.credentials
    &&& v.status@ == available_status()
    &&& v.proxy is None
    &&& v.fingerprint is None
}

/// The group the profile created from `row` is put in, with `snapshot` the groups before the
/// import: none when the row names no group, the first group of `snapshot` with that name, and
/// otherwise a group made for the row.
pub open spec fn grouped_view(v: ProfileView, row: ImportRow, snapshot: Seq<ProfileGroup>) -> bool {
    let k = group_named(snapshot, row.group_name@);
    if row.group_name@.len() == 0 {
        v.group_id is None
    } else if k >= 0 {
        v.group_id matches Some(g) && g@ == snapshot[k].id@
    } else {
        v.group_id is Some
    }
}

/// The groups `after` a row of an import, from `before`: when the row names a group that
/// `snapshot` does not have, one more group of that name with the default color, which the
/// row's profile `v` is put in; otherwise the same groups.
pub open spec fn groups_after_row(
    v: ProfileView,
    row: ImportRow,
    snapshot: Seq<ProfileGroup>,
    before: Seq<ProfileGroup>,
    after: Seq<ProfileGroup>,
) -> bool {
    if row.group_name@.len() > 0 && group_named(snapshot, row.group_name@) < 0 {
        &&& after.len() == before.len() + 1
        &&& after.drop_last() == before
        &&& after.last().name@ == row.group_name@
        &&& after.last().color@ == default_color()
        &&& v.group_id matches Some(g) && g@ == after.last().id@
    } else {
        after == before
    }
}

/// Creates the profile of one CSV row and, when the row names a group, puts it in the first
/// group of `snapshot` with that name, or in a new group of that name when there is none.
pub fn import_row(manager: &mut ProfileManager, profiles_dir: &str, row: &ImportRow, snapshot: &Vec<ProfileGroup>) -> (id: String)
    requires
        old(manager).wf(),
        max_sort_order(old(manager).groups()) < u32::MAX,
    ensures
        final(manager).wf(),
        !has_key(old(manager).profiles(), id@),
        views(final(manager).profiles()).len() == old(manager).profiles().len() + 1,
        views(final(manager).profiles()).drop_last() == views(old(manager).profiles()),
        views(final(manager).profiles()).last().id@ == id@,
        imported_view(views(final(manager).profiles()).last(), *row),
        grouped_view(views(final(manager).profiles()).last(), *row, snapshot@),
        groups_after_row(
            views(final(manager).profiles()).last(),
            *row,
            snapshot@,
            old(manager).groups(),
            final(manager).groups(),
        ),
        lookup(final(manager).profiles(), id@) matches Some(q) && imported_as(q, *row) && ({
            let k = group_named(snapshot@, row.group_name@);
            if row.group_name@.len() == 0 {
                q.group_id is None && final(manager).groups() == old(manager).groups()
            } else if k >= 0 {
                q.group_id matches Some(g) && g@ == snapshot@[k].id@ && final(manager).groups()
                    == old(manager).groups()
            } else {
                exists|g: ProfileGroup|
                    #![trigger upserted(old(manager).groups(), g)]
                    g.name@ == row.group_name@ && g.color@ == default_color() && g.sort_order
                        == max_sort_order(old(manager).groups()) + 1 && final(manager).groups() == upserted(
                        old(manager).groups(),
                        g,
                    ) && (q.group_id matches Some(x) && x@ == g.id@)
            }
        }),
{
    let p = manager.create(
        profiles_dir,
        row.name.clone(),
        row.color.clone(),
        row.description.clone(),
        crate::table::copy_strings(&row.tags),
        match &row.credentials {
            Some(c) => Some(c.duplicate()),
            None => None,
        },
        None,
    );
    let id = p.id.clone();
    let ghost m1 = manager.profiles();
    proof {
        assert(views(m1).drop_last() =~= views(old(manager).profiles()));
        assert(views(m1).last() == p@);
    }
    if row.group_name.as_str().is_empty() {
        proof {
            assert(row.group_name@.len() == 0);
        }
        return id;
    }
    let ghost g0 = manager.groups();
    let gid: String = match find_group_named(snapshot, row.group_name.as_str()) {
        Some(k) => snapshot[k].id.clone(),
        None => {
            let g = manager.create_group(row.group_name.clone(), "#6366F1".to_string());
            assert(manager.groups().last() == g);
            g.id
        },
    };
    let ghost g1 = manager.groups();
    proof {
        if g1 != g0 {
            assert(g1.drop_last() == g0);
            assert(g1.last().id@ == gid@);
        }
    }
    let ghost mid = manager.profiles();
    proof {
        assert(views(mid) == views(m1));
        assert(mid.len() == m1.len());
        assert(views(mid)[mid.len() - 1] == mid[mid.len() - 1]@);
        lemma_key_index(mid, mid.len() - 1);
    }
    let r = manager.set_profile_group(id.as_str(), Some(gid));
    proof {
        match r {
            Ok(q) => {
                lemma_profile_view_update(mid, manager.profiles(), id@, q);
                assert(views(manager.profiles()).drop_last() =~= views(mid).drop_last());
            },
            Err(_) => {},
        }
    }
    id
}


/// No group sorts after the largest sort order.
proof fn lemma_max_sort_order_above(s: Seq<ProfileGroup>)
    ensures
        forall|j: int| 0 <= j < s.len() ==> #[trigger] s[j].sort_order <= max_sort_order(s),
    decreases s.len(),
{
    if s.len() > 0 {
        lemma_max_sort_order_above(s.drop_last());
        assert forall|j: int| 0 <= j < s.len() implies #[trigger] s[j].sort_order <= max_sort_order(s) by {
            if j < s.len() - 1 {
                assert(s[j] == s.drop_last()[j]);
            }
        }
    }
}

/// The largest sort order is bounded by any bound on every group's.
proof fn lemma_max_sort_order_below(s: Seq<ProfileGroup>, m: nat)
    requires
        forall|j: int| 0 <= j < s.len() ==> #[trigger] s[j].sort_order <= m,
    ensures
        max_sort_order(s) <= m,
    decreases s.len(),
{
    if s.len() > 0 {
        assert forall|j: int| 0 <= j < s.len() - 1 implies #[trigger] s.drop_last()[j].sort_order <= m by {
            assert(s.drop_last()[j] == s[j]);
        }
        lemma_max_sort_order_below(s.drop_last(), m);
    }
}

/// Storing a group that sorts one after the last raises the largest sort order by one at most.
proof fn lemma_max_sort_order_upserted(s: Seq<ProfileGroup>, g: ProfileGroup)
    requires
        g.sort_order == max_sort_order(s) + 1,
    ensures
        max_sort_order(upserted(s, g)) <= max_sort_order(s) + 1,
{
    lemma_max_sort_order_above(s);
    let u = upserted(s, g);
    assert forall|j: int| 0 <= j < u.len() implies #[trigger] u[j].sort_order <= max_sort_order(s) + 1 by {
        if has_key(s, g.key()) {
            let i = key_index(s, g.key());
            if j != i {
                assert(u[j] == s[j]);
            }
        } else {
            if j < s.len() {
                assert(u[j] == s[j]);
            }
        }
    }
    lemma_max_sort_order_below(u, (max_sort_order(s) + 1) as nat);
}

/// The group names of the rows that name a group `groups` does not have, in order: the groups an
/// import of `rows` makes.
pub open spec fn new_group_names(rows: Seq<ImportRow>, groups: Seq<ProfileGroup>) -> Seq<Seq<char>>
    decreases rows.len(),
{
    if rows.len() == 0 {
        Seq::empty()
    } else {
        let r = new_group_names(rows.drop_last(), groups);
        let n = rows.last().group_name@;
        if n.len() > 0 && group_named(groups, n) < 0 {
            r.push(n)
        } else {
            r
        }
    }
}

/// The groups after an import from `before`, with `names` the groups it makes: `before`, then
/// one group per name, in order, with that name and the default color.
pub open spec fn groups_made(before: Seq<ProfileGroup>, after: Seq<ProfileGroup>, names: Seq<Seq<char>>) -> bool {
    &&& after.len() == before.len() + names.len()
    &&& after.take(before.len() as int) == before
    &&& forall|k: int| 0 <= k < names.len() ==> (#[trigger] after[before.len() + k]).name@ == names[k]
        && after[before.len() + k].color@ == default_color()
}

/// Creates the profiles of `rows`, in order, as `import_row` does, each looking up groups among
/// those there were before the first row: the profiles already there stay as they were, and one
/// new profile per row follows them, with the row's fields and group; gives back how many were
/// imported.
pub fn import_profiles(manager: &mut ProfileManager, profiles_dir: &str, rows: &Vec<ImportRow>) -> (n: usize)
    requires
        old(manager).wf(),
        max_sort_order(old(manager).groups()) + rows@.len() < u32::MAX,
    ensures
        final(manager).wf(),
        n == rows@.len(),
        max_sort_order(final(manager).groups()) <= max_sort_order(old(manager).groups()) + rows@.len(),
        views(final(manager).profiles()).len() == old(manager).profiles().len() + rows@.len(),
        views(final(manager).profiles()).take(old(manager).profiles().len() as int) == views(old(manager).profiles()),
        forall|i: int| 0 <= i < rows@.len() ==> {
            let v = views(final(manager).profiles())[old(manager).profiles().len() + i];
            imported_view(v, #[trigger] rows@[i]) && grouped_view(v, rows@[i], old(manager).groups())
        },
        groups_made(old(manager).groups(), final(manager).groups(), new_group_names(rows@, old(manager).groups())),
        forall|i: int|
            0 <= i < rows@.len() && (#[trigger] rows@[i]).group_name@.len() > 0 && group_named(
                old(manager).groups(),
                rows@[i].group_name@,
            ) < 0 ==> (views(final(manager).profiles())[old(manager).profiles().len() + i].group_id matches Some(g)
                && g@ == final(manager).groups()[old(manager).groups().len() + new_group_names(
                rows@.take(i),
                old(manager).groups(),
            ).len() as int].id@),
{
    let snapshot = manager.list_groups();
    let ghost old_len = old(manager).profiles().len();
    proof {
        assert(views(snapshot@).len() == snapshot@.len());
        assert(views(old(manager).groups()).len() == old(manager).groups().len());
        assert forall|k: int| 0 <= k < snapshot@.len() implies snapshot@[k] == old(manager).groups()[k] by {
            assert(views(snapshot@)[k] == snapshot@[k]@);
            assert(views(old(manager).groups())[k] == old(manager).groups()[k]@);
        }
        assert(snapshot@ =~= old(manager).groups());
        assert(views(manager.profiles()).take(old_len as int) =~= views(old(manager).profiles()));
        assert(rows@.take(0) =~= Seq::<ImportRow>::empty());
        assert(manager.groups().take(snapshot@.len() as int) =~= snapshot@);
    }
    let mut imported: usize = 0;
    while imported < rows.len()
        invariant
            0 <= imported <= rows@.len(),
            manager.wf(),
            max_sort_order(manager.groups()) <= max_sort_order(old(manager).groups()) + imported,
            max_sort_order(old(manager).groups()) + rows@.len() < u32::MAX,
            snapshot@ == old(manager).groups(),
            old_len == old(manager).profiles().len(),
            views(manager.profiles()).len() == old_len + imported,
            views(manager.profiles()).take(old_len as int) == views(old(manager).profiles()),
            forall|i: int| 0 <= i < imported ==> {
                let v = views(manager.profiles())[old_len + i];
                imported_view(v, #[trigger] rows@[i]) && grouped_view(v, rows@[i], snapshot@)
            },
            groups_made(snapshot@, manager.groups(), new_group_names(rows@.take(imported as int), snapshot@)),
            forall|i: int|
                0 <= i < imported && (#[trigger] rows@[i]).group_name@.len() > 0 && group_named(
                    snapshot@,
                    rows@[i].group_name@,
                ) < 0 ==> (views(manager.profiles())[old_len + i].group_id matches Some(g) && g@
                    == manager.groups()[snapshot@.len() + new_group_names(rows@.take(i), snapshot@).len() as int].id@),
        decreases rows.len() - imported,
    {
        let ghost before = manager.groups();
        let ghost vp = views(manager.profiles());
        let ghost names = new_group_names(rows@.take(imported as int), snapshot@);
        let _id = import_row(manager, profiles_dir, &rows[imported], &snapshot);
        proof {
            if manager.groups() != before {
                let g = choose|g: ProfileGroup|
                    #![trigger upserted(before, g)]
                    g.name@ == rows@[imported as int].group_name@ && g.color@ == default_color() && g.sort_order
                        == max_sort_order(before) + 1 && manager.groups() == upserted(before, g) && true;
                lemma_max_sort_order_upserted(before, g);
            }
            let vn = views(manager.profiles());
            assert(vn.drop_last() == vp);
            assert forall|i: int| 0 <= i < imported + 1 implies {
                let v = vn[old_len + i];
                imported_view(v, #[trigger] rows@[i]) && grouped_view(v, rows@[i], snapshot@)
            } by {
                if i < imported {
                    assert(vn[old_len + i] == vn.drop_last()[old_len + i]);
                }
            }
            assert(vn.take(old_len as int) =~= vp.take(old_len as int));
            let t = rows@.take(imported + 1);
            assert(t.drop_last() =~= rows@.take(imported as int));
            assert(t.last() == rows@[imported as int]);
            let names2 = new_group_names(t, snapshot@);
            let after = manager.groups();
            let row = rows@[imported as int];
            assert(groups_after_row(vn.last(), row, snapshot@, before, after));
            if row.group_name@.len() > 0 && group_named(snapshot@, row.group_name@) < 0 {
                assert(names2 == names.push(row.group_name@));
                assert(after.take(snapshot@.len() as int) =~= before.take(snapshot@.len() as int));
                assert forall|k: int| 0 <= k < names2.len() implies (#[trigger] after[snapshot@.len() + k]).name@
                    == names2[k] && after[snapshot@.len() + k].color@ == default_color() by {
                    if k < names.len() {
                        assert(after[snapshot@.len() + k] == before[snapshot@.len() + k]);
                    }
                }
            } else {
                assert(names2 == names);
            }
            assert forall|i: int|
                0 <= i < imported + 1 && (#[trigger] rows@[i]).group_name@.len() > 0 && group_named(
                    snapshot@,
                    rows@[i].group_name@,
                ) < 0 implies vn[old_len + i].group_id matches Some(g) && g@ == after[snapshot@.len()
                + new_group_names(rows@.take(i), snapshot@).len() as int].id@ by {
                if i < imported {
                    assert(vn[old_len + i] == vn.drop_last()[old_len + i]);
                    let m = new_group_names(rows@.take(i), snapshot@).len();
                    lemma_new_group_names_prefix(rows@, snapshot@, i, imported as int);
                    assert(snapshot@.len() + m < before.len());
                    assert(after[snapshot@.len() + m as int] == before[snapshot@.len() + m as int]);
                } else {
                    assert(rows@.take(i) == rows@.take(imported as int));
                    assert(vn[old_len + i] == vn.last());
                }
            }
        }
        imported = imported + 1;
    }
    proof {
        assert(rows@.take(rows@.len() as int) =~= rows@);
    }
    imported
}

/// Rows that name new groups before row `i` make fewer groups than the rows before row `j` when
/// row `i` is one of them and comes before row `j`.
proof fn lemma_new_group_names_prefix(rows: Seq<ImportRow>, groups: Seq<ProfileGroup>, i: int, j: int)
    requires
        0 <= i < j <= rows.len(),
        rows[i].group_name@.len() > 0,
        group_named(groups, rows[i].group_name@) < 0,
    ensures
        new_group_names(rows.take(i), groups).len() < new_group_names(rows.take(j), groups).len(),
    decreases j - i,
{
    assert(rows.take(j).drop_last() =~= rows.take(j - 1));
    if j == i + 1 {
        assert(rows.take(j).last() == rows[i]);
        assert(rows.take(j - 1) =~= rows.take(i));
    } else {
        lemma_new_group_names_prefix(rows, groups, i, j - 1);
    }
}

/// Imports a profile CSV: reads its rows as `parse_import_rows` does and creates them as
/// `import_profiles` does. The profiles already there stay as they were, and one new profile per
/// accepted row follows them, with the fields that row gives and its group; gives back how many
/// were created.
pub fn import_profiles_csv(manager: &mut ProfileManager, profiles_dir: &str, csv_data: &str) -> (n: usize)
    requires
        old(manager).wf(),
        max_sort_order(old(manager).groups()) + import_fields(csv_data@).len() < u32::MAX,
    ensures
        final(manager).wf(),
        n == import_fields(csv_data@).len(),
        views(final(manager).profiles()).len() == old(manager).profiles().len() + n,
        views(final(manager).profiles()).take(old(manager).profiles().len() as int) == views(old(manager).profiles()),
        forall|i: int| 0 <= i < n ==> #[trigger] profile_from_fields(
            views(final(manager).profiles())[old(manager).profiles().len() + i],
            import_fields(csv_data@)[i],
            old(manager).groups(),
        ),
        groups_made(
            old(manager).groups(),
            final(manager).groups(),
            new_group_names_of_fields(import_fields(csv_data@), old(manager).groups()),
        ),
        forall|i: int|
            0 <= i < n && (#[trigger] import_fields(csv_data@)[i])[7].len() > 0 && group_named(
                old(manager).groups(),
                import_fields(csv_data@)[i][7],
            ) < 0 ==> (views(final(manager).profiles())[old(manager).profiles().len() + i].group_id matches Some(g)
                && g@ == final(manager).groups()[old(manager).groups().len() + new_group_names_of_fields(
                import_fields(csv_data@).take(i),
                old(manager).groups(),
            ).len() as int].id@),
{
    let rows = parse_import_rows(csv_data);
    let n = import_profiles(manager, profiles_dir, &rows);
    proof {
        let fs = import_fields(csv_data@);
        assert forall|i: int| 0 <= i < rows@.len() implies (#[trigger] rows@[i]).group_name@ == fs[i][7] by {
            assert(row_of(rows@[i], fs[i]));
        }
        lemma_names_of_fields(rows@, fs, old(manager).groups());
        assert forall|i: int|
            0 <= i < n && (#[trigger] fs[i])[7].len() > 0 && group_named(old(manager).groups(), fs[i][7]) < 0 implies (
            views(manager.profiles())[old(manager).profiles().len() + i].group_id matches Some(g) && g@
                == manager.groups()[old(manager).groups().len() + new_group_names_of_fields(
                fs.take(i),
                old(manager).groups(),
            ).len() as int].id@) by {
            assert(rows@[i].group_name@ == fs[i][7]);
            lemma_names_of_fields(rows@.take(i), fs.take(i), old(manager).groups());
        }
        assert forall|i: int| 0 <= i < n implies #[trigger] profile_from_fields(
            views(manager.profiles())[old(manager).profiles().len() + i],
            import_fields(csv_data@)[i],
            old(manager).groups(),
        ) by {
            let row = rows@[i];
            assert(row_of(row, import_fields(csv_data@)[i]));
        }
    }
    n
}

/// The group names (field 8) of the CSV rows `fs` that name a group `groups` does not have, in
/// order: the groups an import of them makes.
pub open spec fn new_group_names_of_fields(fs: Seq<Seq<Seq<char>>>, groups: Seq<ProfileGroup>) -> Seq<Seq<char>>
    decreases fs.len(),
{
    if fs.len() == 0 {
        Seq::empty()
    } else {
        let r = new_group_names_of_fields(fs.drop_last(), groups);
        let n = fs.last()[7];
        if n.len() > 0 && group_named(groups, n) < 0 {
            r.push(n)
        } else {
            r
        }
    }
}

proof fn lemma_names_of_fields(rows: Seq<ImportRow>, fs: Seq<Seq<Seq<char>>>, groups: Seq<ProfileGroup>)
    requires
        rows.len() == fs.len(),
        forall|i: int| 0 <= i < rows.len() ==> (#[trigger] rows[i]).group_name@ == fs[i][7],
    ensures
        new_group_names(rows, groups) == new_group_names_of_fields(fs, groups),
    decreases rows.len(),
{
    if rows.len() > 0 {
        let r = rows.drop_last();
        let f = fs.drop_last();
        assert forall|i: int| 0 <= i < r.len() implies (#[trigger] r[i]).group_name@ == f[i][7] by {
            assert(r[i] == rows[i]);
            assert(f[i] == fs[i]);
        }
        lemma_names_of_fields(r, f, groups);
        assert(rows.last() == rows[rows.len() - 1]);
    }
}

/// The view of a profile created from the CSV fields `f`, with `groups` the groups before the
/// import: name, color (the default when empty), description, tags cut at `,` and trimmed (none
/// when empty), credentials when the e-mail is given (the default URL when none), available,
/// no proxy or fingerprint, and the group named `f[7]` as `grouped_view` describes.
pub open spec fn profile_from_fields(v: ProfileView, f: Seq<Seq<char>>, groups: Seq<ProfileGroup>) -> bool {
    &&& v.name@ == f[0]
    &&& v.color@ == (if f[1].len() == 0 { default_color() } else { f[1] })
    &&& v.description@ == f[2]
    &&& strings(v.tags) == (if f[3].len() == 0 {
        Seq::<Seq<char>>::empty()
    } else {
        split_at_char(f[3], ',').map_values(|p: Seq<char>| trim(p))
    })
    &&& (if f[4].len() == 0 {
        v.credentials is None
    } else {
        v.credentials matches Some(c) && c.email@ == f[4] && c.password@ == f[5] && c.url@ == (if f[6].len()
            == 0 {
            default_login_url()
        } else {
            f[6]
        })
    })
    &&& v.status@ == available_status()
    &&& v.proxy is None
    &&& v.fingerprint is None
    &&& ({
        let k = group_named(groups, f[7]);
        if f[7].len() == 0 {
            v.group_id is None
        } else if k >= 0 {
            v.group_id matches Some(g) && g@ == groups[k].id@
        } else {
            v.group_id is Some
        }
    })
}

} // verus!
