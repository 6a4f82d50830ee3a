use vstd::prelude::*;

use crate::service::python::item::{PyItem, Thread};
use crate::service::text::{
    append_lines, chars_of, fix_indentation, fixed_indentation, join_lines, lines, push_char, split_lines, views,
};

verus! {

/// The wrapper that runs the user's function and records its result (or the
/// traceback of what it raised) in `res`.
pub const TRY_CATCH: &'static str = "\n                def try_catch(f):\n                    try:\n                        res['data'] = f()\n                    except Exception as e:\n                        import traceback\n                        res['error'] = traceback.format_exc()\n                    res['found'] = True\n                def function():\n            ";

/// Runs the function on a python thread.
pub const RUN_THREADED: &'static str = "\n                    handle = thread(target=try_catch, args=[function])\n                    handle.start()    \n                ";

/// Runs the function where the code runs.
pub const RUN_INLINE: &'static str = "\n                    try_catch(function)\n                ";

/// Dedents a block of text by the indentation of its first non-blank line
/// (assumed consistent spaces or tabs); blank lines are dropped, and every
/// line ends with '\n'.
pub fn fix_code_indentation(code: &str) -> (r: String)
    ensures
        r@ == fixed_indentation(code@, false),
{
    fix_indentation(code, false)
}

/// The lines of `a` then those of `b`, joined with '\n'.
pub fn append_code(a: &str, b: &str) -> (r: String)
    ensures
        r@ == join_lines(lines(a@) + lines(b@)),
{
    append_lines(a, b)
}

/// Each line of `s` indented by four spaces and ended with '\n'.
pub open spec fn indented_block(ls: Seq<Seq<char>>) -> Seq<char>
    decreases ls.len(),
{
    if ls.len() == 0 {
        Seq::empty()
    } else {
        indented_block(ls.drop_last()) + "    "@ + ls.last() + "\n"@
    }
}

/// Each line of `s` indented by four spaces and ended with '\n'.
pub fn indent_block(s: &str) -> (r: String)
    ensures
        r@ == indented_block(lines(s@)),
{
    proof {
        reveal_strlit("    ");
        reveal_strlit("\n");
    }
    let cs = chars_of(s);
    let ls = split_lines(&cs);
    let mut out = String::new();
    let mut i: usize = 0;
    proof {
        assert(views(ls@).take(0) =~= Seq::<Seq<char>>::empty());
    }
    while i < ls.len()
        invariant
            i <= ls@.len(),
            out@ == indented_block(views(ls@).take(i as int)),
        decreases ls@.len() - i,
    {
        let ghost base = out@;
        let line = &ls[i];
        push_char(&mut out, ' ');
        push_char(&mut out, ' ');
        push_char(&mut out, ' ');
        push_char(&mut out, ' ');
        proof {
            reveal_strlit("    ");
            assert("    "@ =~= seq![' ', ' ', ' ', ' ']);
            assert(out@ =~= base + "    "@ + line@.take(0));
        }
        let mut k: usize = 0;
        while k < line.len()
            invariant
                k <= line@.len(),
                out@ == base + "    "@ + line@.take(k as int),
            decreases line@.len() - k,
        {
            push_char(&mut out, line[k]);
            proof {
                assert(line@.take(k as int + 1) =~= line@.take(k as int).push(line@[k as int]));
                assert(base + "    "@ + line@.take(k as int + 1) =~= (base + "    "@ + line@.take(k as int)).push(line@[k as int]));
            }
            k = k + 1;
        }
        push_char(&mut out, '\n');
        proof {
            assert(line@.take(line@.len() as int) =~= line@);
            let t = views(ls@).take(i as int + 1);
            assert(t.drop_last() =~= views(ls@).take(i as int));
            assert(t.last() == line@);
            reveal_strlit("\n");
            assert("\n"@ =~= seq!['\n']);
            assert(out@ =~= base + "    "@ + line@ + "\n"@);
        }
        i = i + 1;
    }
    proof {
        assert(views(ls@).take(ls@.len() as int) =~= views(ls@));
    }
    out
}

/// Python code ready to run, and the objects it is run with.
#[derive(Debug)]
pub struct PyCode {
    pub code: String,
    pub globals: Option<Vec<PyItem>>,
}

/// Why python code could not be built.
#[derive(Clone, Copy, Debug, PartialEq, Eq, Structural)]
pub enum PyCodeError {
    /// No code was given.
    CodeNotProvided,
    /// Debug code was asked for but not given.
    DbgCodeNotProvided,
}

/// Assembles the python code that runs a function (or its debug stand-in)
/// through the result-recording wrapper, on a thread or inline.
pub struct PyCodeBuilder {
    pub threaded: bool,
    pub dbg_stat: bool,
    pub dbg_code: Option<String>,
    pub dbg_globals: Option<Vec<PyItem>>,
    pub code: Option<String>,
    pub globals: Option<Vec<PyItem>>,
}

/// The code that `build` makes of the function body `body`.
pub open spec fn assembled_code(body: Seq<char>, threaded: bool) -> Seq<char> {
    let wrapped = join_lines(
        lines(fixed_indentation(TRY_CATCH@, false)) + lines(indented_block(lines(fixed_indentation(body, false)))),
    );
    let tail = if threaded { RUN_THREADED@ } else { RUN_INLINE@ };
    join_lines(lines(wrapped) + lines(fixed_indentation(tail, false)))
}

pub open spec fn ytmusic_named(i: PyItem) -> bool {
    i matches PyItem::YtMusic(x) && x.name@ == "ytmusic"@
}

pub open spec fn ytdl_named(i: PyItem) -> bool {
    i matches PyItem::Ytdl(x) && x.name@ == "ytdl"@
}

pub open spec fn json_named(i: PyItem) -> bool {
    i matches PyItem::Json(x) && x.name@ == "json"@
}

/// Objects of code run on a thread: the two that are asked for, then the
/// thread class.
pub open spec fn runs_with(g: Option<Vec<PyItem>>, first: spec_fn(PyItem) -> bool, second: spec_fn(PyItem) -> bool) -> bool {
    &&& g is Some
    &&& g->Some_0@.len() == 3
    &&& first(g->Some_0@[0])
    &&& second(g->Some_0@[1])
    &&& g->Some_0@[2] matches PyItem::Thread(t) && t.name@ == "thread"@
}

impl PyCodeBuilder {
    /// Nothing given yet: not threaded, debug off.
    pub fn new() -> (r: Self)
        ensures
            !r.threaded,
            !r.dbg_stat,
            r.dbg_code is None,
            r.dbg_globals is None,
            r.code is None,
            r.globals is None,
    {
        PyCodeBuilder { threaded: false, dbg_stat: false, dbg_code: None, dbg_globals: None, code: None, globals: None }
    }

    /// Sets the debug stand-in for the function and its objects.
    pub fn dbg_func(self, code: String, globals: Option<Vec<PyItem>>) -> (r: Self)
        ensures
            r.dbg_code == Some(code),
            r.dbg_globals == globals,
            r.threaded == self.threaded,
            r.dbg_stat == self.dbg_stat,
            r.code == self.code,
            r.globals == self.globals,
    {
        let mut s = self;
        s.dbg_code = Some(code);
        s.dbg_globals = globals;
        s
    }

    /// Whether the debug stand-in is run instead of the function.
    pub fn set_dbg_status(self, stat: bool) -> (r: Self)
        ensures
            r.dbg_stat == stat,
            r.threaded == self.threaded,
            r.dbg_code == self.dbg_code,
            r.dbg_globals == self.dbg_globals,
            r.code == self.code,
            r.globals == self.globals,
    {
        let mut s = self;
        s.dbg_stat = stat;
        s
    }

    /// Sets the function body that fetches the data and its objects.
    pub fn get_data_func(self, code: String, globals: Option<Vec<PyItem>>) -> (r: Self)
        ensures
            r.code == Some(code),
            r.globals == globals,
            r.threaded == self.threaded,
            r.dbg_stat == self.dbg_stat,
            r.dbg_code == self.dbg_code,
            r.dbg_globals == self.dbg_globals,
    {
        let mut s = self;
        s.code = Some(code);
        s.globals = globals;
        s
    }

    /// Runs the function on a python thread.
    pub fn threaded(self) -> (r: Self)
        ensures
            r.threaded,
            r.dbg_stat == self.dbg_stat,
            r.dbg_code == self.dbg_code,
            r.dbg_globals == self.dbg_globals,
            r.code == self.code,
            r.globals == self.globals,
    {
        let mut s = self;
        s.threaded = true;
        s
    }

    /// The code: the chosen body (the debug one where debug is on), dedented,
    /// indented under the wrapper, followed by the call that runs it. A
    /// threaded call adds the Thread class (as "thread") to the objects.
    pub fn build(self) -> (r: Result<PyCode, PyCodeError>)
        ensures
            self.code is None ==> r == Err::<PyCode, PyCodeError>(PyCodeError::CodeNotProvided),
            self.code is Some && self.dbg_stat && self.dbg_code is None ==> r == Err::<PyCode, PyCodeError>(
                PyCodeError::DbgCodeNotProvided,
            ),
            self.code is Some && !(self.dbg_stat && self.dbg_code is None) ==> {
                let body = if self.dbg_stat { self.dbg_code->Some_0 } else { self.code->Some_0 };
                let globals = if self.dbg_stat { self.dbg_globals } else { self.globals };
                &&& r is Ok
                &&& r->Ok_0.code@ == assembled_code(body@, self.threaded)
                &&& if self.threaded {
                    match globals {
                        Some(g) => {
                            &&& r->Ok_0.globals is Some
                            &&& r->Ok_0.globals->Some_0@.len() == g@.len() + 1
                            &&& r->Ok_0.globals->Some_0@.drop_last() == g@
                            &&& (r->Ok_0.globals->Some_0@.last() matches PyItem::Thread(t) && t.name@ == "thread"@)
                        },
                        None => r->Ok_0.globals is None,
                    }
                } else {
                    r->Ok_0.globals == globals
                }
            },
    {
        let PyCodeBuilder { threaded, dbg_stat, dbg_code, dbg_globals, code, globals } = self;
        let (body, globals) = match code {
            None => {
                return Err(PyCodeError::CodeNotProvided);
            },
            Some(c) => {
                if dbg_stat {
                    match dbg_code {
                        None => {
                            return Err(PyCodeError::DbgCodeNotProvided);
                        },
                        Some(d) => (d, dbg_globals),
                    }
                } else {
                    (c, globals)
                }
            },
        };
        let fixed = fix_code_indentation(body.as_str());
        let block = indent_block(fixed.as_str());
        let header = fix_code_indentation(TRY_CATCH);
        let wrapped = append_code(header.as_str(), block.as_str());
        let tail = if threaded {
            fix_code_indentation(RUN_THREADED)
        } else {
            fix_code_indentation(RUN_INLINE)
        };
        let code = append_code(wrapped.as_str(), tail.as_str());
        let globals = if threaded {
            match globals {
                Some(g) => {
                    let mut g = g;
                    g.push(PyItem::Thread(Thread::new("thread")));
                    Some(g)
                },
                None => None,
            }
        } else {
            globals
        };
        Ok(PyCode { code, globals })
    }
}

/// Code that runs `body` on a thread with `globals` and the thread class; a
/// debug stand-in, where one is given, is set but not in use.
pub fn threaded_code(body: String, dbg: Option<String>, globals: Vec<PyItem>) -> (r: PyCode)
    ensures
        r.code@ == assembled_code(body@, true),
        r.globals is Some,
        r.globals->Some_0@.len() == globals@.len() + 1,
        r.globals->Some_0@.drop_last() == globals@,
        r.globals->Some_0@.last() matches PyItem::Thread(t) && t.name@ == "thread"@,
{
    let b = PyCodeBuilder::new().threaded().set_dbg_status(false).get_data_func(body, Some(globals));
    let b = match dbg {
        Some(d) => b.dbg_func(d, None),
        None => b,
    };
    match b.build() {
        Ok(code) => code,
        Err(_) => {
            proof {
                assert(false);
            }
            PyCode { code: String::new(), globals: None }
        },
    }
}

} // verus!
