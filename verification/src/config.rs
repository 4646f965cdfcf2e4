//! The settings document: the catalogue of tracks and what the panel is
//! drawn with.
//!
//! The document is JSON. Its parsing is `serde_json`'s; what is read from
//! the parsed document, in which order, and what counts as malformed, is
//! decided here.

use serde_json::Value;
use vstd::prelude::*;
use crate::music::{Music, TrackView};

verus! {

/// A parsed JSON document. Nothing is known of its inside but what
/// `json_tree` says.
#[verifier::external_type_specification]
#[verifier::external_body]
pub struct ExValue(Value);

/// What a JSON document holds.
pub enum Json {
    /// `null`.
    Null,
    /// `true` or `false`.
    Bool(bool),
    /// A number that the parser keeps as an integer.
    Whole(int),
    /// Any other number.
    Fraction,
    /// A string.
    Text(Seq<char>),
    /// An array.
    List(Seq<Json>),
    /// An object: its members by their keys.
    Object(Map<Seq<char>, Json>),
}

/// What the document `v` holds.
pub uninterp spec fn json_tree(v: Value) -> Json;

/// What `text` holds when it is parsed as JSON, if it can be.
pub uninterp spec fn json_parsed(text: Seq<char>) -> Option<Json>;

/// What each document of `values` holds.
pub open spec fn trees(values: Seq<Value>) -> Seq<Json> {
    Seq::new(values.len(), |i: int| json_tree(values[i]))
}

impl Json {
    /// The member under `key` of an object that has one; `null` for any
    /// other key and for anything that is no object.
    pub open spec fn member(self, key: Seq<char>) -> Json {
        match self {
            Json::Object(members) => if members.dom().contains(key) {
                members[key]
            } else {
                Json::Null
            },
            _ => Json::Null,
        }
    }
}

/// `serde_json::from_str` at the type `Value`: the document that the text
/// is parsed to, or nothing where the parser reports an error. The result is
/// named by `json_parsed`: the same text always parses alike.
#[verifier::external_body]
fn parse(text: &str) -> (r: Option<Value>)
    ensures
        match r {
            Some(v) => json_parsed(text@) == Some(json_tree(v)),
            None => json_parsed(text@) is None,
        },
{
    serde_json::from_str(text).ok()
}

/// `Value`'s `Index` by a string: the member under `key` where `v` is an
/// object that has one, and `null` otherwise.
#[verifier::external_body]
fn member<'a>(v: &'a Value, key: &str) -> (r: &'a Value)
    ensures
        json_tree(*r) == json_tree(*v).member(key@),
{
    &v[key]
}

/// `Value::as_array`: the items where `v` is an array, nothing otherwise.
#[verifier::external_body]
fn items(v: &Value) -> (r: Option<&Vec<Value>>)
    ensures
        match r {
            Some(list) => json_tree(*v) == Json::List(trees(list@)),
            None => !(json_tree(*v) is List),
        },
{
    v.as_array()
}

/// `Value::as_str`: the text where `v` is a string, nothing otherwise.
#[verifier::external_body]
fn text(v: &Value) -> (r: Option<&str>)
    ensures
        match r {
            Some(s) => json_tree(*v) == Json::Text(s@),
            None => !(json_tree(*v) is Text),
        },
{
    v.as_str()
}

/// `Value::as_i64`: the number where `v` is an integer that an `i64` can
/// hold, nothing otherwise.
#[verifier::external_body]
fn whole(v: &Value) -> (r: Option<i64>)
    ensures
        match r {
            Some(n) => json_tree(*v) == Json::Whole(n as int),
            None => !(json_tree(*v) matches Json::Whole(n) && i64::MIN <= n <= i64::MAX),
        },
{
    v.as_i64()
}

/// The part of an image that the panel is cut from.
#[derive(Debug, Clone, Copy, PartialEq, Eq, Structural)]
pub struct Rect {
    /// The left edge, in pixels of the image.
    pub left: i32,
    /// The top edge.
    pub top: i32,
    /// The width.
    pub width: i32,
    /// The height.
    pub height: i32,
}

/// What the settings document says.
pub struct Settings {
    /// The tracks, in the document's order.
    pub music: Vec<Music>,
    /// The file of the font.
    pub font: String,
    /// The file of the image that the panel is cut from.
    pub image: String,
    /// The part of that image.
    pub rect: Rect,
}

/// What is wrong with a settings document. The parts are read in the order
/// of the variants, and the first that is wrong is reported.
#[derive(Debug, Clone, Copy, PartialEq, Eq, Structural)]
pub enum ConfigError {
    /// The text is no JSON.
    Syntax,
    /// `music` is no array.
    Music,
    /// The item of `music` at this index lacks a string `file` or `name`.
    Track(usize),
    /// `font` is no string.
    Font,
    /// `background_info.rect` is no array that begins with four integers.
    Rect,
    /// `background_info.image` is no string.
    Image,
}

/// The settings, with texts and lists as values.
pub struct SettingsView {
    /// The tracks, in the document's order.
    pub music: Seq<TrackView>,
    /// The file of the font.
    pub font: Seq<char>,
    /// The file of the image.
    pub image: Seq<char>,
    /// The part of that image.
    pub rect: Rect,
}

/// The tracks as values.
pub open spec fn tracks_view(tracks: Seq<Music>) -> Seq<TrackView> {
    Seq::new(tracks.len(), |i: int| tracks[i]@)
}

impl View for Settings {
    type V = SettingsView;

    open spec fn view(&self) -> SettingsView {
        SettingsView {
            music: tracks_view(self.music@),
            font: self.font@,
            image: self.image@,
            rect: self.rect,
        }
    }
}

/// The track that an item of `music` describes: its strings `file` and
/// `name`.
pub open spec fn track_of(item: Json) -> Option<TrackView> {
    match (item.member("file"@), item.member("name"@)) {
        (Json::Text(file), Json::Text(name)) => Some(TrackView { file, name }),
        _ => None,
    }
}

/// The tracks that a list describes, or the index of its first item that
/// describes none.
pub open spec fn catalogue_of(list: Seq<Json>) -> Result<Seq<TrackView>, ConfigError>
    decreases list.len(),
{
    if list.len() == 0 {
        Ok(Seq::empty())
    } else {
        match catalogue_of(list.drop_last()) {
            Err(e) => Err(e),
            Ok(before) => match track_of(list.last()) {
                Some(track) => Ok(before.push(track)),
                None => Err(ConfigError::Track((list.len() - 1) as usize)),
            },
        }
    }
}

/// The number that `n` is cut to: its low 32 bits.
pub open spec fn cut(n: int) -> i32 {
    (n as i64) as i32
}

/// The rectangle that an array describes by its first four items, each an
/// integer that an `i64` can hold.
pub open spec fn rect_of(j: Json) -> Option<Rect> {
    match j {
        Json::List(a) => if a.len() >= 4 {
            match (a[0], a[1], a[2], a[3]) {
                (Json::Whole(left), Json::Whole(top), Json::Whole(width), Json::Whole(height)) => {
                    if i64::MIN <= left <= i64::MAX && i64::MIN <= top <= i64::MAX && i64::MIN
                        <= width <= i64::MAX && i64::MIN <= height <= i64::MAX {
                        Some(
                            Rect {
                                left: cut(left),
                                top: cut(top),
                                width: cut(width),
                                height: cut(height),
                            },
                        )
                    } else {
                        None
                    }
                },
                _ => None,
            }
        } else {
            None
        },
        _ => None,
    }
}

/// What a document says: the tracks of `music`, the string `font`, and of
/// the object `background_info` the rectangle `rect` and the string `image`;
/// or the first of these that is not as it should be.
pub open spec fn settings_of(doc: Json) -> Result<SettingsView, ConfigError> {
    let info = doc.member("background_info"@);
    match doc.member("music"@) {
        Json::List(list) => match catalogue_of(list) {
            Err(e) => Err(e),
            Ok(music) => match doc.member("font"@) {
                Json::Text(font) => match rect_of(info.member("rect"@)) {
                    None => Err(ConfigError::Rect),
                    Some(rect) => match info.member("image"@) {
                        Json::Text(image) => Ok(SettingsView { music, font, image, rect }),
                        _ => Err(ConfigError::Image),
                    },
                },
                _ => Err(ConfigError::Font),
            },
        },
        _ => Err(ConfigError::Music),
    }
}

/// What a text says that is read as a settings document.
pub open spec fn settings_of_text(text: Seq<char>) -> Result<SettingsView, ConfigError> {
    match json_parsed(text) {
        Some(doc) => settings_of(doc),
        None => Err(ConfigError::Syntax),
    }
}

/// The result with its settings as values.
pub open spec fn outcome(r: Result<Settings, ConfigError>) -> Result<SettingsView, ConfigError> {
    match r {
        Ok(settings) => Ok(settings@),
        Err(e) => Err(e),
    }
}

proof fn lemma_catalogue_stops(list: Seq<Json>, k: int)
    requires
        0 <= k <= list.len(),
        catalogue_of(list.take(k)) is Err,
    ensures
        catalogue_of(list) == catalogue_of(list.take(k)),
    decreases list.len() - k,
{
    if k < list.len() {
        assert(list.take(k + 1).drop_last() =~= list.take(k));
        lemma_catalogue_stops(list, k + 1);
    } else {
        assert(list.take(k) =~= list);
    }
}

/// A list is a catalogue exactly if each of its items describes a track,
/// and then the catalogue holds these tracks in the list's order. Otherwise
/// the error names the first item that describes none. This is said of
/// lists that a `Vec` can hold.
pub proof fn lemma_catalogue_in_order(list: Seq<Json>)
    requires
        list.len() <= usize::MAX,
    ensures
        match catalogue_of(list) {
            Ok(tracks) => tracks.len() == list.len() && forall|i: int|
                0 <= i < list.len() ==> track_of(#[trigger] list[i]) == Some(tracks[i]),
            Err(e) => exists|bad: int|
                0 <= bad < list.len() && bad <= usize::MAX && e == ConfigError::Track(bad as usize)
                    && track_of(list[bad]) is None && forall|i: int|
                    0 <= i < bad ==> track_of(#[trigger] list[i]) is Some,
        },
    decreases list.len(),
{
    if list.len() > 0 {
        let front = list.drop_last();
        lemma_catalogue_in_order(front);
        match catalogue_of(front) {
            Ok(before) => {
                assert forall|i: int| 0 <= i < front.len() implies track_of(#[trigger] list[i])
                    is Some by {
                    assert(front[i] == list[i]);
                }
                match track_of(list.last()) {
                    Some(track) => {
                        assert forall|i: int| 0 <= i < list.len() implies track_of(
                            #[trigger] list[i],
                        ) == Some(before.push(track)[i]) by {
                            if i < front.len() {
                                assert(front[i] == list[i]);
                            }
                        }
                    },
                    None => {
                        let bad = list.len() - 1;
                        assert(catalogue_of(list) == Err::<Seq<TrackView>, ConfigError>(
                            ConfigError::Track(bad as usize),
                        ));
                    },
                }
            },
            Err(e) => {
                let bad = choose|bad: int|
                    0 <= bad < front.len() && bad <= usize::MAX && e == ConfigError::Track(
                        bad as usize,
                    ) && track_of(front[bad]) is None && forall|i: int|
                        0 <= i < bad ==> track_of(#[trigger] front[i]) is Some;
                assert(front[bad] == list[bad]);
                assert forall|i: int| 0 <= i < bad implies track_of(#[trigger] list[i])
                    is Some by {
                    assert(front[i] == list[i]);
                }
            },
        }
    }
}

/// The tracks that the items of `list` describe, in their order.
pub fn tracks_from(list: &Vec<Value>) -> (r: Result<Vec<Music>, ConfigError>)
    ensures
        match r {
            Ok(tracks) => catalogue_of(trees(list@)) == Ok::<Seq<TrackView>, ConfigError>(
                tracks_view(tracks@),
            ),
            Err(e) => catalogue_of(trees(list@)) == Err::<Seq<TrackView>, ConfigError>(e),
        },
{
    let ghost all = trees(list@);
    let mut tracks: Vec<Music> = Vec::new();
    let mut i: usize = 0;
    proof {
        assert(all.take(0) =~= Seq::<Json>::empty());
        assert(tracks_view(tracks@) =~= Seq::<TrackView>::empty());
    }
    while i < list.len()
        invariant
            i <= list.len(),
            all == trees(list@),
            catalogue_of(all.take(i as int)) == Ok::<Seq<TrackView>, ConfigError>(
                tracks_view(tracks@),
            ),
        decreases list.len() - i,
    {
        let item: &Value = &list[i];
        let ghost before = tracks_view(tracks@);
        proof {
            assert(all.take(i + 1).drop_last() =~= all.take(i as int));
            assert(all.take(i + 1).last() == json_tree(*item));
        }
        match (text(member(item, "file")), text(member(item, "name"))) {
            (Some(file), Some(name)) => {
                tracks.push(Music::new(file.to_owned(), name.to_owned()));
                proof {
                    assert(tracks_view(tracks@) =~= before.push(
                        TrackView { file: file@, name: name@ },
                    ));
                }
            },
            _ => {
                proof {
                    lemma_catalogue_stops(all, i + 1);
                }
                return Err(ConfigError::Track(i));
            },
        }
        i += 1;
    }
    proof {
        assert(all.take(i as int) =~= all);
    }
    Ok(tracks)
}

/// The rectangle that `v` describes.
pub fn rect_from(v: &Value) -> (r: Option<Rect>)
    ensures
        r == rect_of(json_tree(*v)),
{
    let list: &Vec<Value> = match items(v) {
        Some(list) => list,
        None => { return None; },
    };
    if list.len() < 4 {
        return None;
    }
    match (whole(&list[0]), whole(&list[1]), whole(&list[2]), whole(&list[3])) {
        (Some(left), Some(top), Some(width), Some(height)) => Some(
            Rect {
                left: #[verifier::truncate]
                (left as i32),
                top: #[verifier::truncate]
                (top as i32),
                width: #[verifier::truncate]
                (width as i32),
                height: #[verifier::truncate]
                (height as i32),
            },
        ),
        _ => None,
    }
}

impl Settings {
    /// What the parsed document says.
    pub fn from_value(doc: &Value) -> (r: Result<Settings, ConfigError>)
        ensures
            outcome(r) == settings_of(json_tree(*doc)),
    {
        let list: &Vec<Value> = match items(member(doc, "music")) {
            Some(list) => list,
            None => { return Err(ConfigError::Music); },
        };
        let music: Vec<Music> = match tracks_from(list) {
            Ok(music) => music,
            Err(e) => { return Err(e); },
        };
        let font: String = match text(member(doc, "font")) {
            Some(font) => font.to_owned(),
            None => { return Err(ConfigError::Font); },
        };
        let info: &Value = member(doc, "background_info");
        let rect: Rect = match rect_from(member(info, "rect")) {
            Some(rect) => rect,
            None => { return Err(ConfigError::Rect); },
        };
        let image: String = match text(member(info, "image")) {
            Some(image) => image.to_owned(),
            None => { return Err(ConfigError::Image); },
        };
        Ok(Settings { music, font, image, rect })
    }

    /// What the text says, read as a settings document.
    pub fn from_json(text: &str) -> (r: Result<Settings, ConfigError>)
        ensures
            outcome(r) == settings_of_text(text@),
    {
        match parse(text) {
            Some(doc) => Settings::from_value(&doc),
            None => Err(ConfigError::Syntax),
        }
    }
}

} // verus!
