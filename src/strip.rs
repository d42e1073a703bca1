//! The strip transform: where a file's result goes, what a run may touch,
//! and which tag fields survive.
use crate::fields::{FieldView, KeepField, field_views};
use crate::paths::{file_name, file_name_of, join, join_path};
use crate::paths::same_text;
use vstd::prelude::*;

verus! {

/// The fields of an audio tag that the strip transform reads: the standard
/// ones, and the keys of all its frames in tag order.
#[derive(Clone, Debug, PartialEq, Eq)]
pub struct TagRecord {
    pub title: Option<String>,
    pub artist: Option<String>,
    pub album: Option<String>,
    pub year: Option<i32>,
    pub track: Option<u32>,
    pub genre: Option<String>,
    pub frame_ids: Vec<String>,
}

/// The contents of a `TagRecord`.
pub struct TagView {
    pub title: Option<Seq<char>>,
    pub artist: Option<Seq<char>>,
    pub album: Option<Seq<char>>,
    pub year: Option<i32>,
    pub track: Option<u32>,
    pub genre: Option<Seq<char>>,
    pub frame_ids: Seq<Seq<char>>,
}

/// The contents of an optional text.
pub open spec fn text_view(o: Option<String>) -> Option<Seq<char>> {
    match o {
        Some(s) => Some(s@),
        None => None,
    }
}

impl View for TagRecord {
    type V = TagView;

    open spec fn view(&self) -> TagView {
        TagView {
            title: text_view(self.title),
            artist: text_view(self.artist),
            album: text_view(self.album),
            year: self.year,
            track: self.track,
            genre: text_view(self.genre),
            frame_ids: self.frame_ids@.map_values(|k: String| k@),
        }
    }
}

/// One step of building the new tag, starting from an empty one.
#[derive(Clone, Debug, PartialEq, Eq)]
pub enum KeepOp {
    SetTitle(String),
    SetArtist(String),
    SetAlbum(String),
    SetYear(i32),
    SetTrack(u32),
    SetGenre(String),
    /// Copy the source frame at this position in `frame_ids`.
    CopyFrame(usize),
}

/// The contents of a `KeepOp`.
pub enum OpView {
    SetTitle(Seq<char>),
    SetArtist(Seq<char>),
    SetAlbum(Seq<char>),
    SetYear(i32),
    SetTrack(u32),
    SetGenre(Seq<char>),
    CopyFrame(int),
}

impl View for KeepOp {
    type V = OpView;

    open spec fn view(&self) -> OpView {
        match self {
            KeepOp::SetTitle(s) => OpView::SetTitle(s@),
            KeepOp::SetArtist(s) => OpView::SetArtist(s@),
            KeepOp::SetAlbum(s) => OpView::SetAlbum(s@),
            KeepOp::SetYear(y) => OpView::SetYear(*y),
            KeepOp::SetTrack(t) => OpView::SetTrack(*t),
            KeepOp::SetGenre(s) => OpView::SetGenre(s@),
            KeepOp::CopyFrame(i) => OpView::CopyFrame(*i as int),
        }
    }
}

/// The contents of a list of steps.
pub open spec fn op_views(v: Seq<KeepOp>) -> Seq<OpView> {
    v.map_values(|o: KeepOp| o@)
}

/// Position of the first frame with key `key`, or -1.
pub open spec fn first_frame(ids: Seq<Seq<char>>, key: Seq<char>) -> int
    decreases ids.len(),
{
    if ids.len() == 0 {
        -1
    } else if ids[0] == key {
        0
    } else {
        let r = first_frame(ids.drop_first(), key);
        if r < 0 {
            -1
        } else {
            r + 1
        }
    }
}

/// The step that keeping field `f` of `tag` takes, if it is present.
pub open spec fn op_for(tag: TagView, f: FieldView) -> Option<OpView> {
    match f {
        FieldView::Title => match tag.title {
            Some(v) => Some(OpView::SetTitle(v)),
            None => None,
        },
        FieldView::Artist => match tag.artist {
            Some(v) => Some(OpView::SetArtist(v)),
            None => None,
        },
        FieldView::Album => match tag.album {
            Some(v) => Some(OpView::SetAlbum(v)),
            None => None,
        },
        FieldView::Year => match tag.year {
            Some(v) => Some(OpView::SetYear(v)),
            None => None,
        },
        FieldView::Track => match tag.track {
            Some(v) => Some(OpView::SetTrack(v)),
            None => None,
        },
        FieldView::Genre => match tag.genre {
            Some(v) => Some(OpView::SetGenre(v)),
            None => None,
        },
        FieldView::Custom(k) => {
            let i = first_frame(tag.frame_ids, k);
            if i < 0 {
                None
            } else {
                Some(OpView::CopyFrame(i))
            }
        },
    }
}

/// The steps that keeping `fields` of `tag` takes, in keep-list order; fields
/// that are absent, or unknown frame keys, are left out without error.
pub open spec fn ops_for(tag: TagView, fields: Seq<FieldView>) -> Seq<OpView>
    decreases fields.len(),
{
    if fields.len() == 0 {
        Seq::empty()
    } else {
        let rest = ops_for(tag, fields.drop_last());
        match op_for(tag, fields.last()) {
            Some(o) => rest.push(o),
            None => rest,
        }
    }
}

/// The standard fields of a tag built from nothing by `ops`: each is the last
/// value set for it, or absent.
pub open spec fn built_tag(ops: Seq<OpView>) -> TagView
    decreases ops.len(),
{
    if ops.len() == 0 {
        TagView {
            title: None,
            artist: None,
            album: None,
            year: None,
            track: None,
            genre: None,
            frame_ids: Seq::empty(),
        }
    } else {
        let t = built_tag(ops.drop_last());
        match ops.last() {
            OpView::SetTitle(v) => TagView { title: Some(v), ..t },
            OpView::SetArtist(v) => TagView { artist: Some(v), ..t },
            OpView::SetAlbum(v) => TagView { album: Some(v), ..t },
            OpView::SetYear(v) => TagView { year: Some(v), ..t },
            OpView::SetTrack(v) => TagView { track: Some(v), ..t },
            OpView::SetGenre(v) => TagView { genre: Some(v), ..t },
            OpView::CopyFrame(_) => t,
        }
    }
}

/// What a field of the rebuilt tag holds: the source's value when the keep
/// list names the field, and nothing otherwise.
pub open spec fn kept<T>(named: bool, source: Option<T>) -> Option<T> {
    if named {
        source
    } else {
        None
    }
}

proof fn lemma_built_fields(tag: TagView, fields: Seq<FieldView>)
    ensures
        built_tag(ops_for(tag, fields)).title == kept(fields.contains(FieldView::Title), tag.title),
        built_tag(ops_for(tag, fields)).artist == kept(
            fields.contains(FieldView::Artist),
            tag.artist,
        ),
        built_tag(ops_for(tag, fields)).album == kept(fields.contains(FieldView::Album), tag.album),
        built_tag(ops_for(tag, fields)).year == kept(fields.contains(FieldView::Year), tag.year),
        built_tag(ops_for(tag, fields)).track == kept(fields.contains(FieldView::Track), tag.track),
        built_tag(ops_for(tag, fields)).genre == kept(fields.contains(FieldView::Genre), tag.genre),
    decreases fields.len(),
{
    if fields.len() > 0 {
        let rest = fields.drop_last();
        lemma_built_fields(tag, rest);
        let ops = ops_for(tag, fields);
        let f = fields.last();
        assert forall|g: FieldView| fields.contains(g) == (rest.contains(g) || g == f) by {
            if fields.contains(g) {
                let j = choose|j: int| 0 <= j < fields.len() && fields[j] == g;
                if j < fields.len() - 1 {
                    assert(rest[j] == g);
                }
            }
            if rest.contains(g) {
                let j = choose|j: int| 0 <= j < rest.len() && rest[j] == g;
                assert(fields[j] == g);
            }
            if g == f {
                assert(fields[fields.len() - 1] == g);
            }
        }
        match op_for(tag, f) {
            Some(o) => {
                assert(ops.drop_last() == ops_for(tag, rest));
                assert(ops.last() == o);
            },
            None => {},
        }
    }
}

/// Keep-list law: the tag rebuilt from a keep-list holds, for each standard
/// field (title, artist, album, year, track, genre), exactly the source's
/// value when the list names it (absent if the source lacks it) and nothing
/// when the list does not name it.
pub proof fn rebuilt_tag_keeps_exactly_the_named_fields(tag: TagView, fields: Seq<FieldView>)
    ensures
        built_tag(ops_for(tag, fields)).title == kept(fields.contains(FieldView::Title), tag.title),
        built_tag(ops_for(tag, fields)).artist == kept(
            fields.contains(FieldView::Artist),
            tag.artist,
        ),
        built_tag(ops_for(tag, fields)).album == kept(fields.contains(FieldView::Album), tag.album),
        built_tag(ops_for(tag, fields)).year == kept(fields.contains(FieldView::Year), tag.year),
        built_tag(ops_for(tag, fields)).track == kept(fields.contains(FieldView::Track), tag.track),
        built_tag(ops_for(tag, fields)).genre == kept(fields.contains(FieldView::Genre), tag.genre),
{
    lemma_built_fields(tag, fields);
}

fn find_frame(ids: &Vec<String>, key: &str) -> (r: Option<usize>)
    ensures
        match r {
            Some(i) => first_frame(ids@.map_values(|k: String| k@), key@) == i as int,
            None => first_frame(ids@.map_values(|k: String| k@), key@) < 0,
        },
{
    let ghost all = ids@.map_values(|k: String| k@);
    let mut i: usize = 0;
    while i < ids.len()
        invariant
            i <= ids@.len(),
            all == ids@.map_values(|k: String| k@),
            forall|k: int| 0 <= k < i ==> all[k] != key@,
        decreases ids@.len() - i,
    {
        if same_text(ids[i].as_str(), key) {
            proof {
                lemma_first_frame_at(all, key@, i as int);
            }
            return Some(i);
        }
        i = i + 1;
    }
    proof {
        lemma_first_frame_absent(all, key@);
    }
    None
}

proof fn lemma_first_frame_at(ids: Seq<Seq<char>>, key: Seq<char>, i: int)
    requires
        0 <= i < ids.len(),
        ids[i] == key,
        forall|k: int| 0 <= k < i ==> ids[k] != key,
    ensures
        first_frame(ids, key) == i,
    decreases i,
{
    if i > 0 {
        lemma_first_frame_at(ids.drop_first(), key, i - 1);
    }
}

proof fn lemma_first_frame_absent(ids: Seq<Seq<char>>, key: Seq<char>)
    requires
        forall|k: int| 0 <= k < ids.len() ==> ids[k] != key,
    ensures
        first_frame(ids, key) == -1,
    decreases ids.len(),
{
    if ids.len() > 0 {
        lemma_first_frame_absent(ids.drop_first(), key);
    }
}

fn op_for_field(tag: &TagRecord, f: &KeepField) -> (r: Option<KeepOp>)
    ensures
        match r {
            Some(o) => op_for(tag@, f@) == Some(o@),
            None => op_for(tag@, f@) is None,
        },
{
    match f {
        KeepField::Title => match &tag.title {
            Some(v) => Some(KeepOp::SetTitle(v.clone())),
            None => None,
        },
        KeepField::Artist => match &tag.artist {
            Some(v) => Some(KeepOp::SetArtist(v.clone())),
            None => None,
        },
        KeepField::Album => match &tag.album {
            Some(v) => Some(KeepOp::SetAlbum(v.clone())),
            None => None,
        },
        KeepField::Year => match tag.year {
            Some(v) => Some(KeepOp::SetYear(v)),
            None => None,
        },
        KeepField::Track => match tag.track {
            Some(v) => Some(KeepOp::SetTrack(v)),
            None => None,
        },
        KeepField::Genre => match &tag.genre {
            Some(v) => Some(KeepOp::SetGenre(v.clone())),
            None => None,
        },
        KeepField::Custom(k) => match find_frame(&tag.frame_ids, k.as_str()) {
            Some(i) => Some(KeepOp::CopyFrame(i)),
            None => None,
        },
    }
}

/// The steps that rebuild `tag` with only the fields in `fields`, in order.
pub fn keep_ops(tag: &TagRecord, fields: &Vec<KeepField>) -> (r: Vec<KeepOp>)
    ensures
        op_views(r@) == ops_for(tag@, field_views(fields@)),
{
    let mut out: Vec<KeepOp> = Vec::new();
    let mut i: usize = 0;
    while i < fields.len()
        invariant
            i <= fields@.len(),
            op_views(out@) == ops_for(tag@, field_views(fields@.subrange(0, i as int))),
        decreases fields@.len() - i,
    {
        let ghost before = out@;
        let o = op_for_field(tag, &fields[i]);
        proof {
            assert(field_views(fields@.subrange(0, i as int + 1)).drop_last() =~= field_views(
                fields@.subrange(0, i as int),
            ));
        }
        match o {
            Some(op) => {
                out.push(op);
                assert(op_views(out@) =~= op_views(before).push(out@.last()@));
            },
            None => {},
        }
        i = i + 1;
    }
    assert(fields@.subrange(0, fields@.len() as int) =~= fields@);
    out
}

/// What happens to the tag of a file whose tag could be read.
#[derive(Clone, Debug, PartialEq, Eq)]
pub enum TagRewrite {
    /// Write an empty tag over it.
    Clear,
    /// Write a new tag built by these steps over it.
    Rebuild(Vec<KeepOp>),
    /// Leave it as it is.
    Leave,
}

/// The tag policy. A file whose tag cannot be read (`None`) is already
/// clean and is left as it is; otherwise removing everything wins over a
/// keep-list, and with neither the tag is left alone.
pub fn tag_rewrite(remove_all: bool, keep: &Option<Vec<KeepField>>, tag: &Option<TagRecord>) -> (r:
    TagRewrite)
    ensures
        tag is None ==> r is Leave,
        tag is Some && remove_all ==> r is Clear,
        tag is Some && !remove_all && keep is None ==> r is Leave,
        tag is Some && !remove_all && keep is Some ==> (r matches TagRewrite::Rebuild(ops)
            && op_views(ops@) == ops_for(tag->0@, field_views(keep->0@))),
{
    match tag {
        None => TagRewrite::Leave,
        Some(t) => {
            if remove_all {
                TagRewrite::Clear
            } else {
                match keep {
                    Some(fields) => TagRewrite::Rebuild(keep_ops(t, fields)),
                    None => TagRewrite::Leave,
                }
            }
        },
    }
}

/// Where the processed file goes: under the output directory by its file
/// name, or back onto itself when there is none.
pub open spec fn output_path(path: Seq<char>, output_dir: Option<Seq<char>>) -> Seq<char> {
    match output_dir {
        Some(d) => join(d, file_name(path)),
        None => path,
    }
}

/// The file system work for one audio file, before its tag is read.
#[derive(Clone, Debug, PartialEq, Eq)]
pub struct StripPlan {
    /// Where the result is written.
    pub output_path: String,
    /// A directory to create first.
    pub create_dir: Option<String>,
    /// Copy the source to `output_path` first.
    pub copy_source: bool,
    /// Read the tag at `output_path` and apply the tag policy to it.
    pub rewrite_tag: bool,
}

/// The work for the file at `path`. A dry run touches nothing: no directory,
/// no copy, no tag; the item is still reported.
pub fn plan_strip(path: &str, output_dir: &Option<String>, dry_run: bool) -> (r: StripPlan)
    ensures
        r.output_path@ == output_path(path@, text_view(*output_dir)),
        dry_run ==> r.create_dir is None && !r.copy_source && !r.rewrite_tag,
        !dry_run ==> text_view(r.create_dir) == text_view(*output_dir) && r.rewrite_tag
            && r.copy_source == (output_path(path@, text_view(*output_dir)) != path@),
{
    let out = match output_dir {
        Some(d) => {
            let name = file_name_of(path);
            join_path(d.as_str(), name.as_str())
        },
        None => String::from_str(path),
    };
    if dry_run {
        return StripPlan { output_path: out, create_dir: None, copy_source: false, rewrite_tag: false };
    }
    let differs = !same_text(out.as_str(), path);
    let create_dir = match output_dir {
        Some(d) => Some(d.clone()),
        None => None,
    };
    StripPlan { output_path: out, create_dir, copy_source: differs, rewrite_tag: true }
}

} // verus!
