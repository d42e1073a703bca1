//! The keep-list of the strip transform: a comma-separated list of field
//! names, each trimmed of surrounding white space.
use crate::paths::last_index_of;
use crate::paths::same_text;
use vstd::prelude::*;

verus! {

/// A field named in a keep-list.
#[derive(Clone, Debug, PartialEq, Eq)]
pub enum KeepField {
    Title,
    Artist,
    Album,
    Year,
    Track,
    Genre,
    /// Any other name: a frame looked up by this exact key, trimmed like the standard names.
    Custom(String),
}

/// The contents of a `KeepField`.
pub enum FieldView {
    Title,
    Artist,
    Album,
    Year,
    Track,
    Genre,
    Custom(Seq<char>),
}

impl View for KeepField {
    type V = FieldView;

    open spec fn view(&self) -> FieldView {
        match self {
            KeepField::Title => FieldView::Title,
            KeepField::Artist => FieldView::Artist,
            KeepField::Album => FieldView::Album,
            KeepField::Year => FieldView::Year,
            KeepField::Track => FieldView::Track,
            KeepField::Genre => FieldView::Genre,
            KeepField::Custom(k) => FieldView::Custom(k@),
        }
    }
}

/// Unicode white space, as `char::is_whitespace` documents it.
pub open spec fn is_space(c: char) -> bool {
    let u = c as u32;
    (9 <= u <= 13) || u == 32 || u == 0x85 || u == 0xa0 || u == 0x1680 || (0x2000 <= u
        <= 0x200a) || u == 0x2028 || u == 0x2029 || u == 0x202f || u == 0x205f || u == 0x3000
}

/// `s` without leading white space.
pub open spec fn trim_start(s: Seq<char>) -> Seq<char>
    decreases s.len(),
{
    if s.len() > 0 && is_space(s[0]) {
        trim_start(s.drop_first())
    } else {
        s
    }
}

/// `s` without trailing white space.
pub open spec fn trim_end(s: Seq<char>) -> Seq<char>
    decreases s.len(),
{
    if s.len() > 0 && is_space(s.last()) {
        trim_end(s.drop_last())
    } else {
        s
    }
}

/// `s` without leading and trailing white space.
pub open spec fn trim(s: Seq<char>) -> Seq<char> {
    trim_end(trim_start(s))
}

/// The pieces of `s` between the occurrences of `c`; there is always one
/// more piece than there are separators.
pub open spec fn split_on(s: Seq<char>, c: char) -> Seq<Seq<char>>
    decreases s.len(),
{
    let i = last_index_of(s, c);
    if i < 0 || i >= s.len() {
        seq![s]
    } else {
        split_on(s.subrange(0, i), c).push(s.subrange(i + 1, s.len() as int))
    }
}

/// What one piece of a keep-list names.
pub open spec fn field_of(piece: Seq<char>) -> FieldView {
    let t = trim(piece);
    if t == "title"@ {
        FieldView::Title
    } else if t == "artist"@ {
        FieldView::Artist
    } else if t == "album"@ {
        FieldView::Album
    } else if t == "year"@ {
        FieldView::Year
    } else if t == "track"@ {
        FieldView::Track
    } else if t == "genre"@ {
        FieldView::Genre
    } else {
        FieldView::Custom(t)
    }
}

/// The fields that the pieces of a keep-list name.
pub open spec fn fields_of(pieces: Seq<Seq<char>>) -> Seq<FieldView> {
    pieces.map_values(|p: Seq<char>| field_of(p))
}

/// The fields that a keep-list names, in its order.
pub open spec fn keep_list(s: Seq<char>) -> Seq<FieldView> {
    fields_of(split_on(s, ','))
}

/// The contents of a list of keep-list fields.
pub open spec fn field_views(v: Seq<KeepField>) -> Seq<FieldView> {
    v.map_values(|f: KeepField| f@)
}

proof fn lemma_views_push(v: Seq<KeepField>, f: KeepField, ps: Seq<Seq<char>>, p: Seq<char>)
    requires
        field_views(v) == fields_of(ps),
        f@ == field_of(p),
    ensures
        field_views(v.push(f)) == fields_of(ps.push(p)),
{
    assert(field_views(v.push(f)) =~= field_views(v).push(f@));
    assert(fields_of(ps.push(p)) =~= fields_of(ps).push(field_of(p)));
}

fn is_space_char(c: char) -> (r: bool)
    ensures
        r == is_space(c),
{
    let u = c as u32;
    (9 <= u && u <= 13) || u == 32 || u == 0x85 || u == 0xa0 || u == 0x1680 || (0x2000 <= u
        && u <= 0x200a) || u == 0x2028 || u == 0x2029 || u == 0x202f || u == 0x205f || u
        == 0x3000
}

/// `s` without leading and trailing white space.
pub fn trim_text(s: &str) -> (r: String)
    ensures
        r@ == trim(s@),
{
    let n = s.unicode_len();
    let mut i: usize = 0;
    assert(s@.subrange(0, n as int) =~= s@);
    while i < n && is_space_char(s.get_char(i))
        invariant
            i <= n,
            n == s@.len(),
            trim_start(s@) == trim_start(s@.subrange(i as int, n as int)),
        decreases n - i,
    {
        proof {
            assert(s@.subrange(i as int, n as int).drop_first() =~= s@.subrange(
                i as int + 1,
                n as int,
            ));
        }
        i = i + 1;
    }
    let ghost head = s@.subrange(i as int, n as int);
    assert(trim_start(s@) == head);
    let mut j: usize = n;
    while j > i && is_space_char(s.get_char(j - 1))
        invariant
            i <= j <= n,
            n == s@.len(),
            head == s@.subrange(i as int, n as int),
            trim_end(head) == trim_end(s@.subrange(i as int, j as int)),
        decreases j,
    {
        proof {
            assert(s@.subrange(i as int, j as int).drop_last() =~= s@.subrange(
                i as int,
                j as int - 1,
            ));
        }
        j = j - 1;
    }
    String::from_str(s.substring_char(i, j))
}

/// What one piece of a keep-list names.
pub fn classify_field(piece: &str) -> (r: KeepField)
    ensures
        r@ == field_of(piece@),
{
    let t = trim_text(piece);
    let t = t.as_str();
    if same_text(t, "title") {
        KeepField::Title
    } else if same_text(t, "artist") {
        KeepField::Artist
    } else if same_text(t, "album") {
        KeepField::Album
    } else if same_text(t, "year") {
        KeepField::Year
    } else if same_text(t, "track") {
        KeepField::Track
    } else if same_text(t, "genre") {
        KeepField::Genre
    } else {
        KeepField::Custom(String::from_str(t))
    }
}

proof fn lemma_split_prefix(s: Seq<char>, i: int, start: int)
    requires
        0 <= start <= i <= s.len(),
        last_index_of(s.subrange(0, i), ',') == start - 1,
    ensures
        split_on(s.subrange(0, i), ',') == if start == 0 {
            seq![s.subrange(0, i)]
        } else {
            split_on(s.subrange(0, start - 1), ',').push(s.subrange(start, i))
        },
{
    let u = s.subrange(0, i);
    crate::paths::lemma_last_index_bounds(u, ',');
    if start > 0 {
        assert(u.subrange(0, start - 1) =~= s.subrange(0, start - 1));
        assert(u.subrange(start, i) =~= s.subrange(start, i));
    }
}

/// The fields that the keep-list `s` names, in its order.
pub fn parse_keep_fields(s: &str) -> (r: Vec<KeepField>)
    ensures
        field_views(r@) == keep_list(s@),
{
    let n = s.unicode_len();
    let mut out: Vec<KeepField> = Vec::new();
    let mut start: usize = 0;
    let mut i: usize = 0;
    while i < n
        invariant
            start <= i <= n,
            n == s@.len(),
            start as int == last_index_of(s@.subrange(0, i as int), ',') + 1,
            start == 0 ==> out@.len() == 0,
            start > 0 ==> field_views(out@) == fields_of(split_on(s@.subrange(0, start - 1), ',')),
        decreases n - i,
    {
        proof {
            assert(s@.subrange(0, i as int + 1).drop_last() =~= s@.subrange(0, i as int));
        }
        if s.get_char(i) == ',' {
            let f = classify_field(s.substring_char(start, i));
            proof {
                lemma_split_prefix(s@, i as int, start as int);
            }
            let ghost prev = out@;
            out.push(f);
            proof {
                if start == 0 {
                    assert(prev =~= Seq::<KeepField>::empty());
                    assert(field_views(prev) =~= fields_of(Seq::<Seq<char>>::empty()));
                    lemma_views_push(prev, f, Seq::empty(), s@.subrange(0, i as int));
                    assert(Seq::<Seq<char>>::empty().push(s@.subrange(0, i as int)) =~= seq![
                        s@.subrange(0, i as int),
                    ]);
                } else {
                    lemma_views_push(
                        prev,
                        f,
                        split_on(s@.subrange(0, start - 1), ','),
                        s@.subrange(start as int, i as int),
                    );
                }
            }
            start = i + 1;
        }
        i = i + 1;
    }
    let last = classify_field(s.substring_char(start, n));
    let ghost prev = out@;
    out.push(last);
    proof {
        assert(s@.subrange(0, n as int) =~= s@);
        lemma_split_prefix(s@, n as int, start as int);
        if start == 0 {
            assert(prev =~= Seq::<KeepField>::empty());
            assert(field_views(prev) =~= fields_of(Seq::<Seq<char>>::empty()));
            lemma_views_push(prev, last, Seq::empty(), s@.subrange(0, n as int));
            assert(Seq::<Seq<char>>::empty().push(s@.subrange(0, n as int)) =~= seq![
                s@.subrange(0, n as int),
            ]);
        } else {
            lemma_views_push(
                prev,
                last,
                split_on(s@.subrange(0, start - 1), ','),
                s@.subrange(start as int, n as int),
            );
        }
    }
    out
}

} // verus!
