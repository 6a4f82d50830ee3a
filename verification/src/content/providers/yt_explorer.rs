use vstd::prelude::*;

use crate::content::providers::file_explorer::{listing_id_list, listing_ids, song_ids, songs_then_providers};
use crate::content::providers::traits::{copy_list, first_at, remove_first};
use crate::content::providers::queue_provider::provider_ids;
use crate::content::register::{ContentProviderID, SongID, ID};
use crate::content::selection::{selection_decrement, selection_increment, stepped_down, stepped_up, SelectedIndex};
use crate::content::stack::StateContext;
use crate::service::python::code::{assembled_code, json_named, runs_with, ytdl_named, ytmusic_named, threaded_code, PyCode};
use crate::service::python::item::{Json, PyItem, YtMusic, Ytdl};
use crate::service::text::{concat2, concat3, concat5};

verus! {

/// The kind of results a search asks for.
#[derive(Clone, Copy, Debug, PartialEq, Eq, Structural)]
pub enum YTSearchFilter {
    Albums,
    Songs,
    Videos,
    Playlists,
}

/// The filters in the order the filter screen lists them.
pub open spec fn search_filters() -> Seq<YTSearchFilter> {
    seq![YTSearchFilter::Albums, YTSearchFilter::Songs, YTSearchFilter::Videos, YTSearchFilter::Playlists]
}

/// The name of a filter as shown.
pub open spec fn filter_name(f: YTSearchFilter) -> Seq<char> {
    match f {
        YTSearchFilter::Albums => "Albums"@,
        YTSearchFilter::Songs => "Songs"@,
        YTSearchFilter::Videos => "Videos"@,
        YTSearchFilter::Playlists => "Playlists"@,
    }
}

/// The name of a filter as the search service takes it.
pub open spec fn filter_query(f: YTSearchFilter) -> Seq<char> {
    match f {
        YTSearchFilter::Albums => "albums"@,
        YTSearchFilter::Songs => "songs"@,
        YTSearchFilter::Videos => "videos"@,
        YTSearchFilter::Playlists => "playlists"@,
    }
}

/// A letter in lower case; anything but an ASCII capital is left as it is.
pub open spec fn lower_case(c: char) -> char {
    if 'A' <= c && c <= 'Z' {
        ((c as u32) + 32) as char
    } else {
        c
    }
}

/// A filter is asked of the search service under the name it is shown by,
/// in lower case (the Songs filter asks for "songs"), and no two filters ask
/// for the same thing.
pub proof fn lemma_filter_query_is_lower_name(f: YTSearchFilter, g: YTSearchFilter)
    ensures
        filter_query(f) == filter_name(f).map_values(|c: char| lower_case(c)),
        f != g ==> filter_query(f) != filter_query(g),
{
    reveal_strlit("Albums");
    reveal_strlit("Songs");
    reveal_strlit("Videos");
    reveal_strlit("Playlists");
    reveal_strlit("albums");
    reveal_strlit("songs");
    reveal_strlit("videos");
    reveal_strlit("playlists");
    let q = filter_query(f);
    let n = filter_name(f).map_values(|c: char| lower_case(c));
    assert(q.len() == n.len());
    assert forall|i: int| 0 <= i < q.len() implies q[i] == n[i] by {
        assert(n[i] == lower_case(filter_name(f)[i]));
    }
    assert(q =~= n);
    if f != g {
        let a = filter_query(f);
        let b = filter_query(g);
        if a.len() == b.len() {
            assert(a[0] != b[0]);
        }
    }
}

impl YTSearchFilter {
    pub fn iter() -> (r: Vec<YTSearchFilter>)
        ensures
            r@ == search_filters(),
    {
        let v = vec![YTSearchFilter::Albums, YTSearchFilter::Songs, YTSearchFilter::Videos, YTSearchFilter::Playlists];
        proof {
            assert(v@ =~= search_filters());
        }
        v
    }

    pub fn ytmusic_filter(&self) -> (r: &'static str)
        ensures
            r@ == filter_query(*self),
    {
        match self {
            YTSearchFilter::Albums => "albums",
            YTSearchFilter::Songs => "songs",
            YTSearchFilter::Videos => "videos",
            YTSearchFilter::Playlists => "playlists",
        }
    }

    pub fn to_string(&self) -> (r: String)
        ensures
            r@ == filter_name(*self),
    {
        match self {
            YTSearchFilter::Albums => String::from_str("Albums"),
            YTSearchFilter::Songs => String::from_str("Songs"),
            YTSearchFilter::Videos => String::from_str("Videos"),
            YTSearchFilter::Playlists => String::from_str("Playlists"),
        }
    }
}

/// The entries of the explorer's first edit screen.
#[allow(non_camel_case_types)]
#[derive(Clone, Copy, Debug, PartialEq, Eq, Structural)]
pub enum YTEEditables {
    SEARCH_TERM,
    FILTER,
    URL,
}

/// The entries of the first edit screen, in the order shown.
pub open spec fn main_options() -> Seq<YTEEditables> {
    seq![YTEEditables::FILTER, YTEEditables::SEARCH_TERM, YTEEditables::URL]
}

/// An entry's name as shown: lower case, words apart.
pub open spec fn option_name(e: YTEEditables) -> Seq<char> {
    match e {
        YTEEditables::SEARCH_TERM => "search term"@,
        YTEEditables::FILTER => "filter"@,
        YTEEditables::URL => "url"@,
    }
}

impl YTEEditables {
    pub fn iter() -> (r: Vec<YTEEditables>)
        ensures
            r@ == main_options(),
    {
        let v = vec![YTEEditables::FILTER, YTEEditables::SEARCH_TERM, YTEEditables::URL];
        proof {
            assert(v@ =~= main_options());
        }
        v
    }

    pub fn to_string(&self) -> (r: String)
        ensures
            r@ == option_name(*self),
    {
        match self {
            YTEEditables::SEARCH_TERM => String::from_str("search term"),
            YTEEditables::FILTER => String::from_str("filter"),
            YTEEditables::URL => String::from_str("url"),
        }
    }
}

/// What a url typed in points at.
#[derive(Clone, Copy, Debug, PartialEq, Eq, Structural)]
pub enum YTUrl {
    Playlist,
    Video,
}

pub open spec fn url_kinds() -> Seq<YTUrl> {
    seq![YTUrl::Playlist, YTUrl::Video]
}

pub open spec fn url_name(u: YTUrl) -> Seq<char> {
    match u {
        YTUrl::Playlist => "Playlist"@,
        YTUrl::Video => "Video"@,
    }
}

impl YTUrl {
    pub fn iter() -> (r: Vec<YTUrl>)
        ensures
            r@ == url_kinds(),
    {
        let v = vec![YTUrl::Playlist, YTUrl::Video];
        proof {
            assert(v@ =~= url_kinds());
        }
        v
    }
}

/// An entry of one of the explorer's edit screens.
#[derive(Clone, Copy, Debug, PartialEq, Eq, Structural)]
pub enum YTExplorerEditable {
    Main(YTEEditables),
    SFilter(YTSearchFilter),
    Url(YTUrl),
}

pub open spec fn main_editables() -> Seq<YTExplorerEditable> {
    main_options().map_values(|e: YTEEditables| YTExplorerEditable::Main(e))
}

pub open spec fn filter_editables() -> Seq<YTExplorerEditable> {
    search_filters().map_values(|f: YTSearchFilter| YTExplorerEditable::SFilter(f))
}

pub open spec fn url_editables() -> Seq<YTExplorerEditable> {
    url_kinds().map_values(|u: YTUrl| YTExplorerEditable::Url(u))
}

/// The edit screens nest at most three deep, and the second is reached
/// through an entry of the first.
pub open spec fn editables_defined(ctx: Seq<SelectedIndex>) -> bool {
    &&& 1 <= ctx.len() <= 3
    &&& ctx.len() == 2 ==> ctx[0]@ < 3
}

/// The entries of the edit screen that `ctx` has open: the first screen; then
/// the filters, the first screen again or the url kinds, after the entry
/// chosen on it; then the url kinds.
pub open spec fn editables_for(ctx: Seq<SelectedIndex>) -> Seq<YTExplorerEditable> {
    if ctx.len() == 1 {
        main_editables()
    } else if ctx.len() == 2 {
        match main_options()[ctx[0]@ as int] {
            YTEEditables::FILTER => filter_editables(),
            YTEEditables::SEARCH_TERM => main_editables(),
            YTEEditables::URL => url_editables(),
        }
    } else {
        url_editables()
    }
}

/// What choosing an entry of an edit screen asks of the caller.
#[derive(Debug)]
pub enum YTExplorerChoice {
    /// Start typing the search term, from its current text.
    TypeSearchTerm(String),
    /// A further edit screen was opened.
    Opened,
    /// The filter was set; the edit screen closes.
    FilterChosen,
    /// Start typing a url of this kind, from nothing.
    TypeUrl(YTUrl),
}

pub const SEARCH_HEAD: &'static str = "\n                    data = ytmusic.search('";

pub const SEARCH_MID: &'static str = "', filter='";

pub const SEARCH_TAIL: &'static str = "', limit=75, ignore_spelling=True)\n                    data = json.dumps(data, indent=4)\n                    return data\n                ";

pub const SEARCH_LOG_HEAD: &'static str = "\n                    with open('config/temp/";

pub const SEARCH_LOG_TAIL: &'static str = "_search.log', 'r') as f:\n                        data = f.read()\n                    return data\n                ";

pub const URL_HEAD: &'static str = "\n                    data = ytdl.extract_info('";

pub const URL_TAIL: &'static str = "', download=False)\n                    data = json.dumps(data, indent=4)\n                    return data\n                ";

/// The body of the function that searches for `term` under a filter.
pub open spec fn search_body(term: Seq<char>, filter: YTSearchFilter) -> Seq<char> {
    SEARCH_HEAD@ + term + SEARCH_MID@ + filter_query(filter) + SEARCH_TAIL@
}

/// The body of the function that reads what `url` points at.
pub open spec fn url_body(url: Seq<char>) -> Seq<char> {
    URL_HEAD@ + url + URL_TAIL@
}

/// Searches youtube music, or reads what a url points at, and lists what came back.
pub struct YTExplorer {
    songs: Vec<SongID>,
    providers: Vec<ContentProviderID>,
    name: String,
    selected: SelectedIndex,
    loaded: bool,
    search_term: String,
    filter: YTSearchFilter,
}

impl YTExplorer {
    pub closed spec fn song_list(&self) -> Seq<SongID> {
        self.songs@
    }

    pub closed spec fn provider_list(&self) -> Seq<ContentProviderID> {
        self.providers@
    }

    pub closed spec fn selection(&self) -> usize {
        self.selected@
    }

    pub closed spec fn is_loaded_spec(&self) -> bool {
        self.loaded
    }

    pub closed spec fn name_view(&self) -> Seq<char> {
        self.name@
    }

    pub closed spec fn search_term_view(&self) -> Seq<char> {
        self.search_term@
    }

    pub closed spec fn filter_spec(&self) -> YTSearchFilter {
        self.filter
    }

    /// A copy of the explorer.
    pub fn cp_clone(&self) -> (r: YTExplorer)
        ensures
            r.song_list() == self.song_list(),
            r.provider_list() == self.provider_list(),
            r.selection() == self.selection(),
            r.is_loaded_spec() == self.is_loaded_spec(),
            r.name_view() == self.name_view(),
            r.search_term_view() == self.search_term_view(),
            r.filter_spec() == self.filter_spec(),
    {
        YTExplorer {
            songs: copy_list(&self.songs),
            providers: copy_list(&self.providers),
            name: self.name.clone(),
            selected: self.selected,
            loaded: self.loaded,
            search_term: self.search_term.clone(),
            filter: self.filter,
        }
    }

    /// An explorer named "Youtube" with nothing searched yet, searching for albums.
    pub fn new() -> (r: YTExplorer)
        ensures
            r.name_view() == "Youtube"@,
            r.song_list().len() == 0,
            r.provider_list().len() == 0,
            r.selection() == 0,
            !r.is_loaded_spec(),
            r.search_term_view().len() == 0,
            r.filter_spec() == YTSearchFilter::Albums,
    {
        YTExplorer {
            songs: Vec::new(),
            providers: Vec::new(),
            name: String::from_str("Youtube"),
            selected: SelectedIndex::new(),
            loaded: false,
            search_term: String::new(),
            filter: YTSearchFilter::Albums,
        }
    }

    pub fn get_name(&self) -> (r: String)
        ensures
            r@ == self.name_view(),
    {
        self.name.clone()
    }

    /// The kind of results searched for.
    pub fn get_filter(&self) -> (r: YTSearchFilter)
        ensures
            r == self.filter_spec(),
    {
        self.filter
    }

    pub fn is_loaded(&self) -> (r: bool)
        ensures
            r == self.is_loaded_spec(),
    {
        self.loaded
    }

    /// Takes every id out, songs first, then providers.
    fn pop_all_ids(&mut self) -> (r: Vec<ID>)
        ensures
            r@ == song_ids(old(self).song_list()) + provider_ids(old(self).provider_list()),
            final(self).song_list().len() == 0,
            final(self).provider_list().len() == 0,
            final(self).selection() == old(self).selection(),
            final(self).name_view() == old(self).name_view(),
            final(self).is_loaded_spec() == old(self).is_loaded_spec(),
            final(self).search_term_view() == old(self).search_term_view(),
            final(self).filter_spec() == old(self).filter_spec(),
    {
        let r = songs_then_providers(&self.songs, &self.providers);
        self.songs = Vec::new();
        self.providers = Vec::new();
        r
    }

    /// The entries of the edit screen `ctx` has open.
    pub fn editables(&self, ctx: &StateContext) -> (r: Vec<YTExplorerEditable>)
        requires
            editables_defined(ctx@),
        ensures
            r@ == editables_for(ctx@),
    {
        let depth = ctx.0.len();
        if depth == 1 {
            main_editable_list()
        } else if depth == 2 {
            let i = ctx.0[0].selected_index();
            let opts = YTEEditables::iter();
            match opts[i] {
                YTEEditables::FILTER => filter_editable_list(),
                YTEEditables::SEARCH_TERM => main_editable_list(),
                YTEEditables::URL => url_editable_list(),
            }
        } else {
            url_editable_list()
        }
    }

    pub fn num_editables(&self, ctx: &StateContext) -> (r: usize)
        requires
            editables_defined(ctx@),
        ensures
            r == editables_for(ctx@).len(),
    {
        self.editables(ctx).len()
    }

    /// The line an entry shows: the search term and the filter with their
    /// values, the rest by name.
    pub fn editable_label(&self, e: YTExplorerEditable) -> (r: String)
        ensures
            r@ == match e {
                YTExplorerEditable::Main(YTEEditables::SEARCH_TERM) => "search term: "@ + self.search_term_view(),
                YTExplorerEditable::Main(YTEEditables::FILTER) => "filter: "@ + filter_name(self.filter_spec()),
                YTExplorerEditable::Main(YTEEditables::URL) => "url"@,
                YTExplorerEditable::SFilter(f) => filter_name(f),
                YTExplorerEditable::Url(u) => url_name(u),
            },
    {
        match e {
            YTExplorerEditable::Main(YTEEditables::SEARCH_TERM) => concat2("search term: ", self.search_term.as_str()),
            YTExplorerEditable::Main(YTEEditables::FILTER) => {
                let f = self.filter.to_string();
                concat2("filter: ", f.as_str())
            },
            YTExplorerEditable::Main(YTEEditables::URL) => String::from_str("url"),
            YTExplorerEditable::SFilter(f) => f.to_string(),
            YTExplorerEditable::Url(YTUrl::Playlist) => String::from_str("Playlist"),
            YTExplorerEditable::Url(YTUrl::Video) => String::from_str("Video"),
        }
    }

    /// Chooses the entry selected on the open edit screen: the search term
    /// and a url kind open typing (one level deeper, keeping the choice),
    /// the filter and url entries open their screens, a filter is taken.
    pub fn select_editable(&mut self, ctx: &mut StateContext) -> (r: YTExplorerChoice)
        requires
            editables_defined(old(ctx)@),
            old(ctx)@.last()@ < editables_for(old(ctx)@).len(),
        ensures
            ({
                let i = old(ctx)@.last()@;
                match editables_for(old(ctx)@)[i as int] {
                    YTExplorerEditable::Main(YTEEditables::SEARCH_TERM) => {
                        &&& r matches YTExplorerChoice::TypeSearchTerm(t) && t@ == old(self).search_term_view()
                        &&& final(ctx)@ == old(ctx)@.push(SelectedIndex { index: i })
                        &&& *final(self) == *old(self)
                    },
                    YTExplorerEditable::Main(_) => {
                        &&& r is Opened
                        &&& final(ctx)@ == old(ctx)@.push(SelectedIndex { index: 0 })
                        &&& *final(self) == *old(self)
                    },
                    YTExplorerEditable::SFilter(f) => {
                        &&& r is FilterChosen
                        &&& final(ctx)@ == old(ctx)@
                        &&& final(self).filter_spec() == f
                        &&& final(self).song_list() == old(self).song_list()
                        &&& final(self).provider_list() == old(self).provider_list()
                        &&& final(self).selection() == old(self).selection()
                        &&& final(self).name_view() == old(self).name_view()
                        &&& final(self).search_term_view() == old(self).search_term_view()
                        &&& final(self).is_loaded_spec() == old(self).is_loaded_spec()
                    },
                    YTExplorerEditable::Url(u) => {
                        &&& r == YTExplorerChoice::TypeUrl(u)
                        &&& final(ctx)@ == old(ctx)@.push(SelectedIndex { index: i })
                        &&& *final(self) == *old(self)
                    },
                }
            }),
    {
        let i = ctx.last().selected_index();
        let opts = self.editables(ctx);
        match opts[i] {
            YTExplorerEditable::Main(YTEEditables::SEARCH_TERM) => {
                let mut index = SelectedIndex::new();
                index.select(i);
                ctx.push(index);
                YTExplorerChoice::TypeSearchTerm(self.search_term.clone())
            },
            YTExplorerEditable::Main(_) => {
                ctx.push(SelectedIndex::new());
                YTExplorerChoice::Opened
            },
            YTExplorerEditable::SFilter(f) => {
                self.filter = f;
                YTExplorerChoice::FilterChosen
            },
            YTExplorerEditable::Url(u) => {
                let mut index = SelectedIndex::new();
                index.select(i);
                ctx.push(index);
                YTExplorerChoice::TypeUrl(u)
            },
        }
    }

    /// The code that runs the search for the current term under the current
    /// filter, on a thread, with the search client and json.
    pub fn search_code(&self) -> (r: PyCode)
        ensures
            r.code@ == assembled_code(search_body(self.search_term_view(), self.filter_spec()), true),
            runs_with(r.globals, |i: PyItem| ytmusic_named(i), |i: PyItem| json_named(i)),
    {
        let q = self.filter.ytmusic_filter();
        let body = concat5(SEARCH_HEAD, self.search_term.as_str(), SEARCH_MID, q, SEARCH_TAIL);
        let dbg = concat3(SEARCH_LOG_HEAD, q, SEARCH_LOG_TAIL);
        let globals = vec![PyItem::YtMusic(YtMusic::new("ytmusic")), PyItem::Json(Json::new("json"))];
        threaded_code(body, Some(dbg), globals)
    }

    /// Sets the search term typed in: the explorer is named after it, counts
    /// as loaded, selects its first entry and hands back the ids it held (to
    /// be unregistered) with the code that runs the new search.
    pub fn apply_search_term(&mut self, content: String) -> (r: (Vec<ID>, PyCode))
        ensures
            r.0@ == song_ids(old(self).song_list()) + provider_ids(old(self).provider_list()),
            final(self).name_view() == "Youtube: "@ + content@,
            final(self).search_term_view() == content@,
            final(self).is_loaded_spec(),
            final(self).selection() == 0,
            final(self).song_list().len() == 0,
            final(self).provider_list().len() == 0,
            final(self).filter_spec() == old(self).filter_spec(),
            r.1.code@ == assembled_code(search_body(content@, old(self).filter_spec()), true),
            runs_with(r.1.globals, |i: PyItem| ytmusic_named(i), |i: PyItem| json_named(i)),
    {
        self.loaded = true;
        self.name = concat2("Youtube: ", content.as_str());
        self.search_term = content;
        self.selected.select(0);
        let ids = self.pop_all_ids();
        let code = self.search_code();
        (ids, code)
    }

    /// Takes a url of the given kind typed in: the explorer is named after
    /// the kind, counts as loaded, selects its first entry and hands back the
    /// ids it held with the code that reads what the url points at.
    pub fn apply_url(&mut self, kind: YTUrl, url: &str) -> (r: (Vec<ID>, PyCode))
        ensures
            r.0@ == song_ids(old(self).song_list()) + provider_ids(old(self).provider_list()),
            final(self).name_view() == "Youtube: "@ + url_name(kind) + " Url"@,
            final(self).search_term_view() == old(self).search_term_view(),
            final(self).is_loaded_spec(),
            final(self).selection() == 0,
            final(self).song_list().len() == 0,
            final(self).provider_list().len() == 0,
            final(self).filter_spec() == old(self).filter_spec(),
            r.1.code@ == assembled_code(url_body(url@), true),
            runs_with(r.1.globals, |i: PyItem| ytdl_named(i), |i: PyItem| json_named(i)),
    {
        self.loaded = true;
        self.name = match kind {
            YTUrl::Playlist => String::from_str("Youtube: Playlist Url"),
            YTUrl::Video => String::from_str("Youtube: Video Url"),
        };
        proof {
            reveal_strlit("Youtube: Playlist Url");
            reveal_strlit("Youtube: Video Url");
            reveal_strlit("Youtube: ");
            reveal_strlit("Playlist");
            reveal_strlit("Video");
            reveal_strlit(" Url");
            assert("Youtube: Playlist Url"@ =~= "Youtube: "@ + "Playlist"@ + " Url"@);
            assert("Youtube: Video Url"@ =~= "Youtube: "@ + "Video"@ + " Url"@);
        }
        self.selected.select(0);
        let ids = self.pop_all_ids();
        (ids, url_code(url))
    }

    pub fn add_song(&mut self, id: SongID)
        ensures
            final(self).song_list() == old(self).song_list().push(id),
            final(self).provider_list() == old(self).provider_list(),
            final(self).selection() == old(self).selection(),
    {
        self.songs.push(id);
    }

    pub fn add_provider(&mut self, id: ContentProviderID)
        ensures
            final(self).provider_list() == old(self).provider_list().push(id),
            final(self).song_list() == old(self).song_list(),
            final(self).selection() == old(self).selection(),
    {
        self.providers.push(id);
    }

    pub fn songs(&self) -> (r: &Vec<SongID>)
        ensures
            r@ == self.song_list(),
    {
        &self.songs
    }

    pub fn providers(&self) -> (r: &Vec<ContentProviderID>)
        ensures
            r@ == self.provider_list(),
    {
        &self.providers
    }

    /// The ids: the providers, then the songs.
    pub fn ids(&self) -> (r: Vec<ID>)
        ensures
            r@ == listing_ids(self.provider_list(), self.song_list()),
    {
        listing_id_list(&self.providers, &self.songs)
    }

    pub fn get_size(&self) -> (r: usize)
        requires
            self.provider_list().len() + self.song_list().len() <= usize::MAX,
        ensures
            r == self.provider_list().len() + self.song_list().len(),
    {
        self.providers.len() + self.songs.len()
    }

    pub fn get_selected_index(&self) -> (r: SelectedIndex)
        ensures
            r@ == self.selection(),
    {
        self.selected
    }

    /// The id of the selected entry. Panics where the selection is past the end.
    pub fn get_selected(&self) -> (r: ID)
        requires
            self.selection() < self.provider_list().len() + self.song_list().len(),
        ensures
            r == listing_ids(self.provider_list(), self.song_list())[self.selection() as int],
    {
        let i = self.selected.selected_index();
        if i < self.providers.len() {
            ID::ContentProvider(self.providers[i])
        } else {
            ID::Song(self.songs[i - self.providers.len()])
        }
    }

    pub fn selection_increment(&mut self) -> (moved: bool)
        requires
            old(self).provider_list().len() + old(self).song_list().len() <= usize::MAX,
        ensures
            final(self).selection() == stepped_down(
                old(self).selection(),
                (old(self).provider_list().len() + old(self).song_list().len()) as usize,
            ),
            final(self).song_list() == old(self).song_list(),
            final(self).provider_list() == old(self).provider_list(),
    {
        let n = self.providers.len() + self.songs.len();
        selection_increment(&mut self.selected, n)
    }

    pub fn selection_decrement(&mut self) -> (moved: bool)
        ensures
            final(self).selection() == stepped_up(old(self).selection()),
            final(self).song_list() == old(self).song_list(),
            final(self).provider_list() == old(self).provider_list(),
    {
        selection_decrement(&mut self.selected)
    }

    /// Takes the first occurrence of a song out; the selection moves up when
    /// it stood at or after it (songs are listed after the providers).
    pub fn remove_song(&mut self, id: SongID) -> (r: Option<SongID>)
        ensures
            match first_at(old(self).song_list(), id) {
                Some(k) => {
                    &&& r == Some(id)
                    &&& final(self).song_list() == old(self).song_list().remove(k)
                    &&& final(self).selection() == if old(self).provider_list().len() + k <= old(self).selection() {
                        stepped_up(old(self).selection())
                    } else {
                        old(self).selection()
                    }
                },
                None => {
                    &&& r is None
                    &&& final(self).song_list() == old(self).song_list()
                    &&& final(self).selection() == old(self).selection()
                },
            },
            final(self).provider_list() == old(self).provider_list(),
    {
        let offset = self.providers.len();
        remove_first(&mut self.songs, &mut self.selected, id, offset)
    }

    /// Takes the first occurrence of a provider out; the selection moves up
    /// when it stood at or after it.
    pub fn remove_provider(&mut self, id: ContentProviderID) -> (r: Option<ContentProviderID>)
        ensures
            match first_at(old(self).provider_list(), id) {
                Some(k) => {
                    &&& r == Some(id)
                    &&& final(self).provider_list() == old(self).provider_list().remove(k)
                    &&& final(self).selection() == if k <= old(self).selection() {
                        stepped_up(old(self).selection())
                    } else {
                        old(self).selection()
                    }
                },
                None => {
                    &&& r is None
                    &&& final(self).provider_list() == old(self).provider_list()
                    &&& final(self).selection() == old(self).selection()
                },
            },
            final(self).song_list() == old(self).song_list(),
    {
        remove_first(&mut self.providers, &mut self.selected, id, 0)
    }
}

fn main_editable_list() -> (r: Vec<YTExplorerEditable>)
    ensures
        r@ == main_editables(),
{
    let v = vec![
        YTExplorerEditable::Main(YTEEditables::FILTER),
        YTExplorerEditable::Main(YTEEditables::SEARCH_TERM),
        YTExplorerEditable::Main(YTEEditables::URL),
    ];
    proof {
        assert(v@ =~= main_editables());
    }
    v
}

fn filter_editable_list() -> (r: Vec<YTExplorerEditable>)
    ensures
        r@ == filter_editables(),
{
    let v = vec![
        YTExplorerEditable::SFilter(YTSearchFilter::Albums),
        YTExplorerEditable::SFilter(YTSearchFilter::Songs),
        YTExplorerEditable::SFilter(YTSearchFilter::Videos),
        YTExplorerEditable::SFilter(YTSearchFilter::Playlists),
    ];
    proof {
        assert(v@ =~= filter_editables());
    }
    v
}

fn url_editable_list() -> (r: Vec<YTExplorerEditable>)
    ensures
        r@ == url_editables(),
{
    let v = vec![YTExplorerEditable::Url(YTUrl::Playlist), YTExplorerEditable::Url(YTUrl::Video)];
    proof {
        assert(v@ =~= url_editables());
    }
    v
}

/// The code that reads what `url` points at, on a thread, with the
/// downloader and json.
pub fn url_code(url: &str) -> (r: PyCode)
    ensures
        r.code@ == assembled_code(url_body(url@), true),
        runs_with(r.globals, |i: PyItem| ytdl_named(i), |i: PyItem| json_named(i)),
{
    let body = concat3(URL_HEAD, url, URL_TAIL);
    let globals = vec![PyItem::Ytdl(Ytdl::new("ytdl")), PyItem::Json(Json::new("json"))];
    threaded_code(body, None, globals)
}

} // verus!
