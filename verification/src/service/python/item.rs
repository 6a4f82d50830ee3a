use vstd::prelude::*;

verus! {

/// The ytmusicapi client, bound to a name in the python globals.
#[derive(Clone, Debug)]
pub struct YtMusic {
    pub name: String,
}

/// The yt-dlp downloader, bound to a name in the python globals.
#[derive(Clone, Debug)]
pub struct Ytdl {
    pub name: String,
}

/// The python json module, bound to a name in the python globals.
#[derive(Clone, Debug)]
pub struct Json {
    pub name: String,
}

/// The python Thread class, bound to a name in the python globals.
#[derive(Clone, Debug)]
pub struct Thread {
    pub name: String,
}

/// The python time module, bound to a name in the python globals.
#[derive(Clone, Debug)]
pub struct Time {
    pub name: String,
}

impl YtMusic {
    pub fn new(name: &str) -> (r: Self)
        ensures
            r.name@ == name@,
    {
        YtMusic { name: String::from_str(name) }
    }
}

impl Ytdl {
    pub fn new(name: &str) -> (r: Self)
        ensures
            r.name@ == name@,
    {
        Ytdl { name: String::from_str(name) }
    }
}

impl Json {
    pub fn new(name: &str) -> (r: Self)
        ensures
            r.name@ == name@,
    {
        Json { name: String::from_str(name) }
    }
}

impl Thread {
    pub fn new(name: &str) -> (r: Self)
        ensures
            r.name@ == name@,
    {
        Thread { name: String::from_str(name) }
    }
}

impl Time {
    pub fn new(name: &str) -> (r: Self)
        ensures
            r.name@ == name@,
    {
        Time { name: String::from_str(name) }
    }
}

/// A python object that code is run with, under a name.
#[derive(Clone, Debug)]
pub enum PyItem {
    YtMusic(YtMusic),
    Ytdl(Ytdl),
    Json(Json),
    Thread(Thread),
    Time(Time),
}

impl PyItem {
    /// The name the object is bound to.
    pub open spec fn spec_name(&self) -> Seq<char> {
        match self {
            PyItem::YtMusic(i) => i.name@,
            PyItem::Ytdl(i) => i.name@,
            PyItem::Json(i) => i.name@,
            PyItem::Thread(i) => i.name@,
            PyItem::Time(i) => i.name@,
        }
    }

    pub fn get_name(&self) -> (r: &String)
        ensures
            r@ == self.spec_name(),
    {
        match self {
            PyItem::YtMusic(i) => &i.name,
            PyItem::Ytdl(i) => &i.name,
            PyItem::Json(i) => &i.name,
            PyItem::Thread(i) => &i.name,
            PyItem::Time(i) => &i.name,
        }
    }
}

} // verus!
