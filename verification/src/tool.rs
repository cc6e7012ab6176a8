//! The database as CSV text, for auditing the decode against a known-good parser.

use vstd::prelude::*;
use vstd::string::StrSliceExecFns;
use vstd::string::StringExecFns;
use crate::common::{MusicInfo, MusicView, music_views};
use crate::text::{decimal, decimal_chars, push_char};

verus! {

/// A character that forces a CSV field into quotes.
pub open spec fn is_csv_special(c: char) -> bool {
    c == ',' || c == '"' || c == '\n' || c == '\r'
}

/// The field holds a character that forces quoting.
pub open spec fn needs_quoting(s: Seq<char>) -> bool {
    exists|i: int| 0 <= i < s.len() && is_csv_special(#[trigger] s[i])
}

/// `s` with every '"' doubled.
pub open spec fn double_quotes(s: Seq<char>) -> Seq<char>
    decreases s.len(),
{
    if s.len() == 0 {
        s
    } else if s.last() == '"' {
        double_quotes(s.drop_last()) + seq!['"', '"']
    } else {
        double_quotes(s.drop_last()).push(s.last())
    }
}

/// A field as RFC 4180 writes it: quoted, with its quotes doubled, when it holds a comma, quote or line break;
/// unchanged otherwise.
pub open spec fn spec_csv_field(s: Seq<char>) -> Seq<char> {
    if needs_quoting(s) {
        seq!['"'] + double_quotes(s) + seq!['"']
    } else {
        s
    }
}

/// `s` with every doubled '"' read back as one (the inverse of [`double_quotes`]).
pub open spec fn undouble_quotes(s: Seq<char>) -> Seq<char>
    decreases s.len(),
{
    if s.len() == 0 {
        s
    } else if s.len() >= 2 && s.last() == '"' && s[s.len() - 2] == '"' {
        undouble_quotes(s.drop_last().drop_last()).push('"')
    } else {
        undouble_quotes(s.drop_last()).push(s.last())
    }
}

/// A CSV field read back: the inside of a quoted field with its quotes undoubled, or the field itself.
pub open spec fn spec_csv_unfield(f: Seq<char>) -> Seq<char> {
    if f.len() >= 2 && f[0] == '"' && f.last() == '"' {
        undouble_quotes(f.subrange(1, f.len() - 1))
    } else {
        f
    }
}

proof fn lemma_undouble_double(s: Seq<char>)
    ensures
        undouble_quotes(double_quotes(s)) == s,
    decreases s.len(),
{
    if s.len() > 0 {
        lemma_undouble_double(s.drop_last());
        let d = double_quotes(s.drop_last());
        if s.last() == '"' {
            let t = d + seq!['"', '"'];
            assert(t.drop_last().drop_last() =~= d);
        } else {
            let t = d.push(s.last());
            assert(t.drop_last() =~= d);
            if t.len() >= 2 && t[t.len() - 2] == '"' {
                assert(t.last() == s.last());
            }
        }
        assert(s.drop_last().push(s.last()) =~= s);
    }
}

/// Law: a field written with [`csv_field`] reads back as the same text.
pub proof fn lemma_csv_field_round_trip(s: Seq<char>)
    ensures
        spec_csv_unfield(spec_csv_field(s)) == s,
{
    if needs_quoting(s) {
        let f = spec_csv_field(s);
        lemma_undouble_double(s);
        assert(f.subrange(1, f.len() - 1) =~= double_quotes(s));
    } else if s.len() >= 2 && s[0] == '"' {
        assert(is_csv_special(s[0]));
    }
}

/// Quote a field per RFC 4180 when it contains a comma, quote, or line break.
pub fn csv_field(str_value: &str) -> (s: String)
    ensures
        s@ == spec_csv_field(str_value@),
{
    let n = str_value.unicode_len();
    let ghost v = str_value@;
    let mut special = false;
    let mut i: usize = 0;
    while i < n
        invariant
            n == v.len(),
            v == str_value@,
            i <= n,
            special <==> exists|k: int| 0 <= k < i && is_csv_special(#[trigger] v[k]),
        decreases n - i,
    {
        let c = str_value.get_char(i);
        if c == ',' || c == '"' || c == '\n' || c == '\r' {
            special = true;
        }
        i += 1;
    }
    if !special {
        return String::from_str(str_value);
    }
    let mut s = String::new();
    push_char(&mut s, '"');
    let mut j: usize = 0;
    assert(v.take(0) =~= Seq::<char>::empty());
    while j < n
        invariant
            n == v.len(),
            v == str_value@,
            j <= n,
            s@ == seq!['"'] + double_quotes(v.take(j as int)),
        decreases n - j,
    {
        let c = str_value.get_char(j);
        assert(v.take(j + 1).drop_last() =~= v.take(j as int));
        let ghost before = s@;
        if c == '"' {
            push_char(&mut s, '"');
            push_char(&mut s, '"');
            assert(s@ =~= seq!['"'] + double_quotes(v.take(j + 1)));
        } else {
            push_char(&mut s, c);
            assert(s@ =~= seq!['"'] + double_quotes(v.take(j + 1)));
        }
        j += 1;
    }
    assert(v.take(n as int) =~= v);
    push_char(&mut s, '"');
    s
}

/// The CSV line of one song: id, omnimix flag (0/1), title, genre, artist, version.
pub open spec fn csv_row(m: MusicView) -> Seq<char> {
    decimal_chars(m.id as nat) + ","@ + decimal_chars(if m.is_omnimix { 1nat } else { 0nat }) + ","@
        + spec_csv_field(m.title) + ","@ + spec_csv_field(m.genre) + ","@ + spec_csv_field(m.artist) + ","@
        + decimal_chars(m.version as nat) + "\n"@
}

/// The CSV lines of the valid songs, in database order.
pub open spec fn csv_rows(db: Seq<MusicView>) -> Seq<char>
    decreases db.len(),
{
    if db.len() == 0 {
        Seq::empty()
    } else if db.last().is_valid {
        csv_rows(db.drop_last()) + csv_row(db.last())
    } else {
        csv_rows(db.drop_last())
    }
}

/// One song's CSV line (see [`csv_row`]).
fn csv_line(info: &MusicInfo) -> (s: String)
    ensures
        s@ == csv_row(info@),
{
    let mut s = decimal(info.id as u64);
    s.append(",");
    s.append(decimal(if info.is_omnimix { 1 } else { 0 }).as_str());
    s.append(",");
    let ghost a = s@;
    s.append(csv_field(info.str_title.as_str()).as_str());
    s.append(",");
    s.append(csv_field(info.str_genre.as_str()).as_str());
    s.append(",");
    let ghost b = s@;
    s.append(csv_field(info.str_artist.as_str()).as_str());
    s.append(",");
    s.append(decimal(info.version as u64).as_str());
    s.append("\n");
    assert(s@ =~= csv_row(info@));
    s
}

/// The whole CSV text: a UTF-8 byte-order mark (so spreadsheet tools read CJK correctly), the header line, then one
/// line per valid song sorted by song_id.
pub open spec fn spec_music_csv(db: Seq<MusicView>) -> Seq<char> {
    seq!['\u{FEFF}'] + "id,omnimix,title,genre,artist,version\n"@ + csv_rows(db)
}

/// Render every valid song's fields as CSV text (see [`spec_music_csv`]).
pub fn music_csv(vec_music: &[MusicInfo]) -> (s: String)
    ensures
        s@ == spec_music_csv(music_views(vec_music@)),
{
    let ghost db = music_views(vec_music@);
    let mut s = String::new();
    push_char(&mut s, '\u{FEFF}');
    s.append("id,omnimix,title,genre,artist,version\n");
    let ghost head = s@;
    let mut i: usize = 0;
    assert(db.take(0) =~= Seq::<MusicView>::empty());
    assert(s@ =~= head + csv_rows(db.take(0)));
    while i < vec_music.len()
        invariant
            db == music_views(vec_music@),
            head == seq!['\u{FEFF}'] + "id,omnimix,title,genre,artist,version\n"@,
            i <= vec_music@.len(),
            s@ == head + csv_rows(db.take(i as int)),
        decreases vec_music@.len() - i,
    {
        assert(db.take(i + 1).drop_last() =~= db.take(i as int));
        let info = &vec_music[i];
        assert(db[i as int] == info@);
        if info.is_valid {
            let line = csv_line(info);
            s.append(line.as_str());
        }
        i += 1;
    }
    assert(db.take(i as int) =~= db);
    s
}

} // verus!
