use vstd::prelude::*;

verus! {

broadcast use vstd::string::group_string_axioms;

/// The characters of a string, in order.
pub fn chars_of(s: &str) -> (r: Vec<char>)
    ensures
        r@ == s@,
{
    let mut v: Vec<char> = Vec::new();
    for c in it: s.chars()
        invariant
            v@ == it.seq().take(it.index() as int),
    {
        v.push(c);
    }
    v
}

/// Appends a character to a string.
#[verifier::external_body]
pub fn push_char(s: &mut String, c: char)
    ensures
        final(s)@ == old(s)@.push(c),
{
    s.push(c);
}

/// A string of the given characters.
pub fn string_of(cs: &Vec<char>) -> (r: String)
    ensures
        r@ == cs@,
{
    let mut r = String::new();
    let mut k: usize = 0;
    while k < cs.len()
        invariant
            k <= cs@.len(),
            r@ == cs@.take(k as int),
        decreases cs@.len() - k,
    {
        push_char(&mut r, cs[k]);
        proof {
            assert(cs@.take(k as int + 1) =~= cs@.take(k as int).push(cs@[k as int]));
        }
        k = k + 1;
    }
    proof {
        assert(cs@.take(cs@.len() as int) =~= cs@);
    }
    r
}

/// Whether `c` has the Unicode White_Space property.
pub open spec fn is_whitespace(c: char) -> bool {
    let u = c as u32;
    ||| 0x9 <= u <= 0xd
    ||| u == 0x20
    ||| u == 0x85
    ||| u == 0xa0
    ||| u == 0x1680
    ||| 0x2000 <= u <= 0x200a
    ||| u == 0x2028
    ||| u == 0x2029
    ||| u == 0x202f
    ||| u == 0x205f
    ||| u == 0x3000
}

pub fn char_is_whitespace(c: char) -> (r: bool)
    ensures
        r == is_whitespace(c),
{
    let u = c as u32;
    (0x9 <= u && u <= 0xd) || u == 0x20 || u == 0x85 || u == 0xa0 || u == 0x1680 || (0x2000 <= u && u <= 0x200a)
        || u == 0x2028 || u == 0x2029 || u == 0x202f || u == 0x205f || u == 0x3000
}

/// A line holding only whitespace (or nothing).
pub open spec fn is_blank(l: Seq<char>) -> bool {
    forall|i: int| 0 <= i < l.len() ==> is_whitespace(#[trigger] l[i])
}

/// How many whitespace characters a line starts with.
pub open spec fn leading_ws(l: Seq<char>) -> nat
    decreases l.len(),
{
    if l.len() > 0 && is_whitespace(l[0]) {
        1 + leading_ws(l.drop_first())
    } else {
        0
    }
}

/// Bytes that `c` takes in UTF-8.
pub open spec fn utf8_len(c: char) -> nat {
    let u = c as u32;
    if u < 0x80 {
        1
    } else if u < 0x800 {
        2
    } else if u < 0x10000 {
        3
    } else {
        4
    }
}

/// Bytes that the characters take in UTF-8.
pub open spec fn utf8_len_of(l: Seq<char>) -> nat
    decreases l.len(),
{
    if l.len() == 0 {
        0
    } else {
        utf8_len(l[0]) + utf8_len_of(l.drop_first())
    }
}

/// A line with its first `n` characters dropped.
pub open spec fn skip_chars(l: Seq<char>, n: nat) -> Seq<char> {
    if n >= l.len() {
        Seq::empty()
    } else {
        l.skip(n as int)
    }
}

/// A line without the carriage return that ends it, if any.
pub open spec fn strip_cr(l: Seq<char>) -> Seq<char> {
    if l.len() > 0 && l.last() == '\r' {
        l.drop_last()
    } else {
        l
    }
}

/// The lines of `s`, given that `cur` has been read of the current one: split
/// at '\n' (a '\r' before it dropped), a last line ending being optional.
pub open spec fn lines_from(s: Seq<char>, cur: Seq<char>) -> Seq<Seq<char>>
    decreases s.len(),
{
    if s.len() == 0 {
        if cur.len() == 0 {
            Seq::empty()
        } else {
            seq![cur]
        }
    } else if s[0] == '\n' {
        seq![strip_cr(cur)] + lines_from(s.drop_first(), Seq::empty())
    } else {
        lines_from(s.drop_first(), cur.push(s[0]))
    }
}

/// The lines of `s`, as `str::lines` gives them.
pub open spec fn lines(s: Seq<char>) -> Seq<Seq<char>> {
    lines_from(s, Seq::empty())
}

/// The lines joined with '\n' between them.
pub open spec fn join_lines(ls: Seq<Seq<char>>) -> Seq<char>
    decreases ls.len(),
{
    if ls.len() == 0 {
        Seq::empty()
    } else if ls.len() == 1 {
        ls[0]
    } else {
        join_lines(ls.drop_last()).push('\n') + ls.last()
    }
}

/// The characters of each line.
pub open spec fn views(ls: Seq<Vec<char>>) -> Seq<Seq<char>> {
    ls.map_values(|v: Vec<char>| v@)
}

proof fn lemma_views_push(ls: Seq<Vec<char>>, v: Vec<char>)
    ensures
        views(ls.push(v)) =~= views(ls).push(v@),
{
}

pub fn strip_cr_exec(l: Vec<char>) -> (r: Vec<char>)
    ensures
        r@ == strip_cr(l@),
{
    let mut l = l;
    if l.len() > 0 && l[l.len() - 1] == '\r' {
        l.pop();
    }
    l
}

/// The lines of a string, as `str::lines` gives them.
pub fn split_lines(cs: &Vec<char>) -> (r: Vec<Vec<char>>)
    ensures
        views(r@) == lines(cs@),
{
    let mut out: Vec<Vec<char>> = Vec::new();
    let mut cur: Vec<char> = Vec::new();
    let mut i: usize = 0;
    proof {
        assert(cs@.skip(0) =~= cs@);
        assert(views(out@) + lines_from(cs@, cur@) =~= lines(cs@));
    }
    while i < cs.len()
        invariant
            i <= cs@.len(),
            views(out@) + lines_from(cs@.skip(i as int), cur@) == lines(cs@),
        decreases cs@.len() - i,
    {
        let c = cs[i];
        proof {
            assert(cs@.skip(i as int)[0] == c);
            assert(cs@.skip(i as int).drop_first() =~= cs@.skip(i as int + 1));
        }
        let ghost cur_before = cur@;
        if c == '\n' {
            let line = strip_cr_exec(cur);
            let ghost before = out@;
            out.push(line);
            cur = Vec::new();
            proof {
                lemma_views_push(before, line);
                assert(lines_from(cs@.skip(i as int), cur_before)
                    == seq![strip_cr(cur_before)] + lines_from(cs@.skip(i as int + 1), Seq::empty()));
                assert(views(out@) + lines_from(cs@.skip(i as int + 1), cur@)
                    =~= views(before) + lines_from(cs@.skip(i as int), cur_before));
            }
        } else {
            cur.push(c);
        }
        i = i + 1;
    }
    proof {
        assert(cs@.skip(i as int) =~= Seq::<char>::empty());
    }
    if cur.len() > 0 {
        let ghost before = out@;
        out.push(cur);
        proof {
            lemma_views_push(before, cur);
        }
    } else {
        proof {
            assert(views(out@) + Seq::<Seq<char>>::empty() =~= views(out@));
        }
    }
    out
}


/// Whether a line holds only whitespace.
pub fn line_is_blank(l: &Vec<char>) -> (r: bool)
    ensures
        r == is_blank(l@),
{
    let mut k: usize = 0;
    while k < l.len()
        invariant
            k <= l@.len(),
            forall|i: int| 0 <= i < k ==> is_whitespace(#[trigger] l@[i]),
        decreases l@.len() - k,
    {
        if !char_is_whitespace(l[k]) {
            return false;
        }
        k = k + 1;
    }
    true
}

proof fn lemma_leading_ws_take(l: Seq<char>, k: int)
    requires
        0 <= k <= l.len(),
        forall|i: int| 0 <= i < k ==> is_whitespace(#[trigger] l[i]),
        k == l.len() || !is_whitespace(l[k]),
    ensures
        leading_ws(l) == k,
    decreases k,
{
    if k > 0 {
        assert forall|i: int| 0 <= i < k - 1 implies is_whitespace(#[trigger] l.drop_first()[i]) by {
            assert(l.drop_first()[i] == l[i + 1]);
        }
        if k < l.len() {
            assert(l.drop_first()[k - 1] == l[k]);
        }
        lemma_leading_ws_take(l.drop_first(), k - 1);
    }
}

proof fn lemma_utf8_len_push(l: Seq<char>, c: char)
    ensures
        utf8_len_of(l.push(c)) == utf8_len_of(l) + utf8_len(c),
    decreases l.len(),
{
    if l.len() > 0 {
        assert(l.push(c).drop_first() =~= l.drop_first().push(c));
        assert(l.push(c)[0] == l[0]);
        lemma_utf8_len_push(l.drop_first(), c);
    } else {
        assert(l.push(c).drop_first() =~= Seq::<char>::empty());
        assert(l.push(c)[0] == c);
        assert(utf8_len_of(Seq::<char>::empty()) == 0);
    }
}

/// Bytes (in UTF-8) of the whitespace a line starts with.
pub open spec fn indent_width(l: Seq<char>) -> nat {
    utf8_len_of(l.take(leading_ws(l) as int))
}

pub fn char_utf8_len(c: char) -> (r: u128)
    ensures
        r == utf8_len(c),
{
    let u = c as u32;
    if u < 0x80 {
        1
    } else if u < 0x800 {
        2
    } else if u < 0x10000 {
        3
    } else {
        4
    }
}

/// Bytes (in UTF-8) of the whitespace a line starts with.
pub fn indent_width_exec(l: &Vec<char>) -> (r: u128)
    ensures
        r == indent_width(l@),
{
    let mut k: usize = 0;
    let mut bytes: u128 = 0;
    while k < l.len() && char_is_whitespace(l[k])
        invariant
            k <= l@.len(),
            forall|i: int| 0 <= i < k ==> is_whitespace(#[trigger] l@[i]),
            bytes == utf8_len_of(l@.take(k as int)),
            bytes <= 4 * k,
        decreases l@.len() - k,
    {
        proof {
            assert(l@.take(k as int + 1) =~= l@.take(k as int).push(l@[k as int]));
            lemma_utf8_len_push(l@.take(k as int), l@[k as int]);
        }
        bytes = bytes + char_utf8_len(l[k]);
        k = k + 1;
    }
    proof {
        lemma_leading_ws_take(l@, k as int);
    }
    bytes
}

/// `l` without its first `n` characters, with a '\n' after it.
pub open spec fn dedented_line(l: Seq<char>, n: nat) -> Seq<char> {
    skip_chars(l, n).push('\n')
}

/// Each line without its first `n` characters and with a '\n' after it,
/// blank lines left out unless `keep_blank`.
pub open spec fn dedented(ls: Seq<Seq<char>>, n: nat, keep_blank: bool) -> Seq<char>
    decreases ls.len(),
{
    if ls.len() == 0 {
        Seq::empty()
    } else if !keep_blank && is_blank(ls.last()) {
        dedented(ls.drop_last(), n, keep_blank)
    } else {
        dedented(ls.drop_last(), n, keep_blank) + dedented_line(ls.last(), n)
    }
}

/// Line `k` is the first that is not blank.
pub open spec fn is_first_nonblank(ls: Seq<Seq<char>>, k: int) -> bool {
    &&& 0 <= k < ls.len()
    &&& !is_blank(ls[k])
    &&& forall|j: int| 0 <= j < k ==> is_blank(#[trigger] ls[j])
}

/// The lines dedented by the indentation (in bytes, dropped as characters) of
/// the first line that is not blank; nothing where every line is blank.
pub open spec fn fixed_indentation(s: Seq<char>, keep_blank: bool) -> Seq<char> {
    let ls = lines(s);
    if exists|k: int| is_first_nonblank(ls, k) {
        let k = choose|k: int| is_first_nonblank(ls, k);
        dedented(ls, indent_width(ls[k]), keep_blank)
    } else {
        Seq::empty()
    }
}

proof fn lemma_first_nonblank_unique(ls: Seq<Seq<char>>, k: int)
    requires
        is_first_nonblank(ls, k),
    ensures
        (choose|j: int| is_first_nonblank(ls, j)) == k,
{
    let c = choose|j: int| is_first_nonblank(ls, j);
    if c < k {
        assert(is_blank(ls[c]));
    } else if k < c {
        assert(is_blank(ls[k]));
    }
}

/// Appends `l` without its first `n` characters, and a '\n'.
pub fn push_dedented(out: &mut String, l: &Vec<char>, n: u128)
    ensures
        final(out)@ == old(out)@ + dedented_line(l@, n as nat),
{
    let len = l.len();
    if n < len as u128 {
        let mut k: usize = n as usize;
        proof {
            assert(old(out)@ + l@.skip(n as int).take(0) =~= old(out)@);
        }
        while k < len
            invariant
                n < len,
                n as int <= k <= len,
                len == l@.len(),
                out@ == old(out)@ + l@.skip(n as int).take(k - n),
            decreases len - k,
        {
            push_char(out, l[k]);
            proof {
                assert(l@.skip(n as int).take(k - n + 1) =~= l@.skip(n as int).take(k - n).push(l@[k as int]));
            }
            k = k + 1;
        }
        proof {
            assert(l@.skip(n as int).take(len - n) =~= l@.skip(n as int));
        }
    } else {
        proof {
            assert(old(out)@ + Seq::<char>::empty() =~= old(out)@);
        }
    }
    push_char(out, '\n');
    proof {
        assert(old(out)@ + dedented_line(l@, n as nat) =~= out@);
    }
}

/// Fixes the indentation of a block of text: every line loses as many
/// characters as the first non-blank line has bytes of leading whitespace.
/// Each line kept ends with '\n'; blank lines go unless `keep_blank`.
pub fn fix_indentation(code: &str, keep_blank: bool) -> (r: String)
    ensures
        r@ == fixed_indentation(code@, keep_blank),
{
    let cs = chars_of(code);
    let ls = split_lines(&cs);
    let ghost lv = views(ls@);
    let n = ls.len();
    let mut k: usize = 0;
    while k < n && line_is_blank(&ls[k])
        invariant
            n == ls@.len(),
            lv == views(ls@),
            k <= n,
            forall|j: int| 0 <= j < k ==> is_blank(#[trigger] lv[j]),
        decreases n - k,
    {
        k = k + 1;
    }
    if k >= n {
        proof {
            assert forall|j: int| !is_first_nonblank(lv, j) by {
                if 0 <= j < lv.len() {
                    assert(is_blank(lv[j]));
                }
            }
        }
        return String::new();
    }
    proof {
        assert(is_first_nonblank(lv, k as int));
        lemma_first_nonblank_unique(lv, k as int);
    }
    let width = indent_width_exec(&ls[k]);
    let mut out = String::new();
    let mut i: usize = 0;
    while i < n
        invariant
            n == ls@.len(),
            lv == views(ls@),
            i <= n,
            width == indent_width(lv[k as int]),
            out@ == dedented(lv.take(i as int), width as nat, keep_blank),
        decreases n - i,
    {
        proof {
            let t = lv.take(i as int + 1);
            assert(t.drop_last() =~= lv.take(i as int));
            assert(t.last() == ls@[i as int]@);
        }
        if keep_blank || !line_is_blank(&ls[i]) {
            push_dedented(&mut out, &ls[i], width);
        }
        i = i + 1;
    }
    proof {
        assert(lv.take(n as int) =~= lv);
    }
    out
}

/// Appends a line to a join of lines: a '\n' first unless nothing has been joined yet.
fn push_line(out: &mut String, line: &Vec<char>, first: bool, joined: Ghost<Seq<Seq<char>>>)
    requires
        old(out)@ == join_lines(joined@),
        first == (joined@.len() == 0),
    ensures
        final(out)@ == join_lines(joined@.push(line@)),
{
    if !first {
        push_char(out, '\n');
    }
    let ghost base = out@;
    let mut k: usize = 0;
    while k < line.len()
        invariant
            k <= line@.len(),
            out@ == base + line@.take(k as int),
        decreases line@.len() - k,
    {
        push_char(out, line[k]);
        proof {
            assert(line@.take(k as int + 1) =~= line@.take(k as int).push(line@[k as int]));
        }
        k = k + 1;
    }
    proof {
        assert(line@.take(line@.len() as int) =~= line@);
        let t = joined@.push(line@);
        assert(t.drop_last() =~= joined@);
        if joined@.len() == 0 {
            assert(base =~= Seq::<char>::empty());
            assert(out@ =~= line@);
        }
    }
}

/// The lines of both texts, joined with '\n' between them.
pub fn append_lines(a: &str, b: &str) -> (r: String)
    ensures
        r@ == join_lines(lines(a@) + lines(b@)),
{
    let ca = chars_of(a);
    let cb = chars_of(b);
    let la = split_lines(&ca);
    let lb = split_lines(&cb);
    let mut out = String::new();
    let mut i: usize = 0;
    proof {
        assert(views(la@).take(0) =~= Seq::<Seq<char>>::empty());
    }
    while i < la.len()
        invariant
            i <= la@.len(),
            out@ == join_lines(views(la@).take(i as int)),
        decreases la@.len() - i,
    {
        push_line(&mut out, &la[i], i == 0, Ghost(views(la@).take(i as int)));
        proof {
            assert(views(la@).take(i as int).push(la@[i as int]@) =~= views(la@).take(i as int + 1));
        }
        i = i + 1;
    }
    proof {
        assert(views(la@).take(la@.len() as int) =~= views(la@));
        assert(views(la@) + views(lb@).take(0) =~= views(la@));
    }
    let mut j: usize = 0;
    while j < lb.len()
        invariant
            j <= lb@.len(),
            out@ == join_lines(views(la@) + views(lb@).take(j as int)),
        decreases lb@.len() - j,
    {
        push_line(&mut out, &lb[j], la.len() == 0 && j == 0, Ghost(views(la@) + views(lb@).take(j as int)));
        proof {
            assert((views(la@) + views(lb@).take(j as int)).push(lb@[j as int]@)
                =~= views(la@) + views(lb@).take(j as int + 1));
        }
        j = j + 1;
    }
    proof {
        assert(views(lb@).take(lb@.len() as int) =~= views(lb@));
    }
    out
}


/// What follows the last '/' of `t` (all of `t` where there is none).
pub open spec fn after_last_slash(t: Seq<char>) -> Seq<char>
    decreases t.len(),
{
    if t.len() == 0 {
        t
    } else if t.last() == '/' {
        Seq::empty()
    } else {
        after_last_slash(t.drop_last()).push(t.last())
    }
}

/// The last piece of a path split at '/', a final '/' being ignored, as
/// `rsplit_terminator("/").next()` gives it for a non-empty path.
pub open spec fn last_segment(s: Seq<char>) -> Seq<char> {
    let t = if s.len() > 0 && s.last() == '/' { s.drop_last() } else { s };
    after_last_slash(t)
}

/// The last piece of a non-empty path split at '/', a final '/' being ignored.
pub fn last_path_segment(path: &str) -> (r: String)
    requires
        path@.len() > 0,
    ensures
        r@ == last_segment(path@),
{
    let cs = chars_of(path);
    let mut end = cs.len();
    if cs[end - 1] == '/' {
        end = end - 1;
    }
    let ghost t = cs@.take(end as int);
    proof {
        assert(t =~= if cs@.last() == '/' { cs@.drop_last() } else { cs@ });
    }
    let mut start = end;
    proof {
        assert(t.take(end as int) =~= t);
        assert(t.subrange(end as int, end as int) =~= Seq::<char>::empty());
        assert(after_last_slash(t) + Seq::<char>::empty() =~= after_last_slash(t));
    }
    while start > 0 && cs[start - 1] != '/'
        invariant
            start <= end <= cs@.len(),
            t == cs@.take(end as int),
            after_last_slash(t) == after_last_slash(t.take(start as int)) + t.subrange(start as int, end as int),
        decreases start,
    {
        proof {
            let u = t.take(start as int);
            assert(u.drop_last() =~= t.take(start as int - 1));
            assert(u.last() == cs@[start - 1]);
            assert(after_last_slash(t.take(start as int - 1)) + t.subrange(start as int - 1, end as int)
                =~= after_last_slash(t.take(start as int - 1)).push(cs@[start - 1]) + t.subrange(start as int, end as int));
        }
        start = start - 1;
    }
    proof {
        if start > 0 {
            let u = t.take(start as int);
            assert(u.last() == '/');
            assert(after_last_slash(u) =~= Seq::<char>::empty());
        } else {
            assert(t.take(0) =~= Seq::<char>::empty());
        }
        assert(Seq::<char>::empty() + t.subrange(start as int, end as int) =~= t.subrange(start as int, end as int));
    }
    let mut out = String::new();
    let mut k = start;
    while k < end
        invariant
            start <= k <= end <= cs@.len(),
            out@ == cs@.subrange(start as int, k as int),
        decreases end - k,
    {
        push_char(&mut out, cs[k]);
        proof {
            assert(cs@.subrange(start as int, k as int + 1) =~= cs@.subrange(start as int, k as int).push(cs@[k as int]));
        }
        k = k + 1;
    }
    proof {
        assert(t.subrange(start as int, end as int) =~= cs@.subrange(start as int, end as int));
    }
    out
}

/// The strings one after the other.
pub fn concat2(a: &str, b: &str) -> (r: String)
    ensures
        r@ == a@ + b@,
{
    let r = String::from_str(a);
    r.concat(b)
}

/// The strings one after the other.
pub fn concat3(a: &str, b: &str, c: &str) -> (r: String)
    ensures
        r@ == a@ + b@ + c@,
{
    let r = String::from_str(a);
    let r = r.concat(b);
    r.concat(c)
}

/// The strings one after the other.
pub fn concat5(a: &str, b: &str, c: &str, d: &str, e: &str) -> (r: String)
    ensures
        r@ == a@ + b@ + c@ + d@ + e@,
{
    let r = String::from_str(a);
    let r = r.concat(b);
    let r = r.concat(c);
    let r = r.concat(d);
    r.concat(e)
}

/// Whether `needle` occurs in `hay`.
pub open spec fn contains_sub(hay: Seq<char>, needle: Seq<char>) -> bool {
    exists|i: int| 0 <= i && i + needle.len() <= hay.len() && #[trigger] hay.subrange(i, i + needle.len()) == needle
}

/// Whether `needle` occurs in `hay`.
pub fn str_contains(hay: &str, needle: &str) -> (r: bool)
    ensures
        r == contains_sub(hay@, needle@),
{
    let h = chars_of(hay);
    let n = chars_of(needle);
    if n.len() > h.len() {
        return false;
    }
    let hl = h.len();
    let limit = hl - n.len();
    let mut i: usize = 0;
    loop
        invariant
            hl == h@.len(),
            h@ == hay@,
            n@ == needle@,
            n@.len() <= h@.len(),
            limit == h@.len() - n@.len(),
            i <= limit,
            forall|j: int| 0 <= j < i ==> #[trigger] h@.subrange(j, j + n@.len()) != n@,
        decreases limit - i,
    {
        let mut k: usize = 0;
        let mut same = true;
        while k < n.len()
            invariant
                k <= n@.len(),
                n@.len() <= h@.len(),
                hl == h@.len(),
                i <= limit,
                limit == h@.len() - n@.len(),
                same == (forall|m: int| 0 <= m < k ==> h@[i + m] == n@[m]),
            decreases n@.len() - k,
        {
            assert(i + k < h@.len());
            if h[i + k] != n[k] {
                same = false;
            }
            k = k + 1;
        }
        if same {
            proof {
                assert(h@.subrange(i as int, i + n@.len()) =~= n@);
            }
            return true;
        }
        proof {
            let m = choose|m: int| 0 <= m < n@.len() && h@[i + m] != n@[m];
            assert(h@.subrange(i as int, i + n@.len())[m] != n@[m]);
        }
        if i == limit {
            proof {
                assert forall|j: int| 0 <= j && j + n@.len() <= h@.len() implies #[trigger] h@.subrange(j, j + n@.len()) != n@ by {
                    assert(j <= i);
                }
            }
            return false;
        }
        i = i + 1;
    }
}


/// No character of the line is a '\n'.
pub open spec fn no_newline(x: Seq<char>) -> bool {
    forall|i: int| 0 <= i < x.len() ==> #[trigger] x[i] != '\n'
}

/// The lines, each followed by a '\n'.
pub open spec fn newline_ended(xs: Seq<Seq<char>>) -> Seq<char>
    decreases xs.len(),
{
    if xs.len() == 0 {
        Seq::empty()
    } else {
        xs[0] + seq!['\n'] + newline_ended(xs.drop_first())
    }
}

/// The lines that are not blank, each without its first `n` characters.
pub open spec fn kept_lines(ls: Seq<Seq<char>>, n: nat) -> Seq<Seq<char>>
    decreases ls.len(),
{
    if ls.len() == 0 {
        Seq::empty()
    } else if is_blank(ls.last()) {
        kept_lines(ls.drop_last(), n)
    } else {
        kept_lines(ls.drop_last(), n).push(skip_chars(ls.last(), n))
    }
}

/// Code whose indentation is consistent: the first line that is not blank
/// is indented with one-byte whitespace, every line that is not blank is
/// indented at least as far, and none of those ends with a carriage return.
pub open spec fn consistently_indented(s: Seq<char>) -> bool {
    let ls = lines(s);
    forall|k: int| #[trigger] is_first_nonblank(ls, k) ==> {
        let n = indent_width(ls[k]);
        &&& n == leading_ws(ls[k])
        &&& forall|j: int| 0 <= j < ls.len() && !is_blank(#[trigger] ls[j]) ==> {
            &&& leading_ws(ls[j]) >= n
            &&& ls[j].last() != '\r'
        }
    }
}

proof fn lemma_leading_ws(l: Seq<char>)
    ensures
        leading_ws(l) <= l.len(),
        forall|i: int| 0 <= i < leading_ws(l) ==> is_whitespace(#[trigger] l[i]),
        leading_ws(l) < l.len() ==> !is_whitespace(l[leading_ws(l) as int]),
        !is_blank(l) ==> leading_ws(l) < l.len(),
    decreases l.len(),
{
    if l.len() > 0 && is_whitespace(l[0]) {
        let t = l.drop_first();
        lemma_leading_ws(t);
        assert forall|i: int| 0 <= i < leading_ws(l) implies is_whitespace(#[trigger] l[i]) by {
            if i > 0 {
                assert(l[i] == t[i - 1]);
            }
        }
        if leading_ws(l) < l.len() {
            assert(l[leading_ws(l) as int] == t[leading_ws(t) as int]);
        }
        if !is_blank(l) {
            let i = choose|i: int| 0 <= i < l.len() && !is_whitespace(#[trigger] l[i]);
            assert(t[i - 1] == l[i]);
            assert(!is_blank(t));
        }
    }
}

proof fn lemma_lines_from_line(x: Seq<char>, rest: Seq<char>, cur: Seq<char>)
    requires
        no_newline(x),
    ensures
        lines_from(x + seq!['\n'] + rest, cur) == seq![strip_cr(cur + x)] + lines_from(rest, Seq::empty()),
    decreases x.len(),
{
    let s = x + seq!['\n'] + rest;
    if x.len() == 0 {
        assert(s[0] == '\n');
        assert(s.drop_first() =~= rest);
        assert(cur + x =~= cur);
    } else {
        assert(s[0] == x[0]);
        let x2 = x.drop_first();
        assert(s.drop_first() =~= x2 + seq!['\n'] + rest);
        assert(cur.push(x[0]) + x2 =~= cur + x);
        lemma_lines_from_line(x2, rest, cur.push(x[0]));
    }
}

proof fn lemma_lines_of_newline_ended(xs: Seq<Seq<char>>)
    requires
        forall|k: int| 0 <= k < xs.len() ==> no_newline(#[trigger] xs[k]),
        forall|k: int| 0 <= k < xs.len() ==> strip_cr(#[trigger] xs[k]) == xs[k],
    ensures
        lines(newline_ended(xs)) == xs,
    decreases xs.len(),
{
    if xs.len() > 0 {
        let t = xs.drop_first();
        assert forall|k: int| 0 <= k < t.len() implies no_newline(#[trigger] t[k]) by {
            assert(t[k] == xs[k + 1]);
        }
        assert forall|k: int| 0 <= k < t.len() implies strip_cr(#[trigger] t[k]) == t[k] by {
            assert(t[k] == xs[k + 1]);
        }
        lemma_lines_of_newline_ended(t);
        assert(no_newline(xs[0]));
        lemma_lines_from_line(xs[0], newline_ended(t), Seq::empty());
        assert(Seq::<char>::empty() + xs[0] =~= xs[0]);
        assert(seq![xs[0]] + t =~= xs);
    }
}

proof fn lemma_newline_ended_push(xs: Seq<Seq<char>>, y: Seq<char>)
    ensures
        newline_ended(xs.push(y)) == newline_ended(xs) + y + seq!['\n'],
    decreases xs.len(),
{
    if xs.len() == 0 {
        assert(xs.push(y).drop_first() =~= Seq::<Seq<char>>::empty());
        assert(xs.push(y)[0] == y);
        assert(newline_ended(Seq::<Seq<char>>::empty()) == Seq::<char>::empty());
        assert(newline_ended(xs) == Seq::<char>::empty());
        assert(newline_ended(xs.push(y)) =~= y + seq!['\n']);
    } else {
        assert(xs.push(y).drop_first() =~= xs.drop_first().push(y));
        lemma_newline_ended_push(xs.drop_first(), y);
        assert(newline_ended(xs.push(y)) =~= newline_ended(xs) + y + seq!['\n']);
    }
}

proof fn lemma_dedented_kept(ls: Seq<Seq<char>>, n: nat)
    ensures
        dedented(ls, n, false) == newline_ended(kept_lines(ls, n)),
    decreases ls.len(),
{
    if ls.len() > 0 {
        lemma_dedented_kept(ls.drop_last(), n);
        if !is_blank(ls.last()) {
            lemma_newline_ended_push(kept_lines(ls.drop_last(), n), skip_chars(ls.last(), n));
            assert(dedented_line(ls.last(), n) =~= skip_chars(ls.last(), n) + seq!['\n']);
            assert(dedented(ls, n, false) =~= newline_ended(kept_lines(ls, n)));
        }
    }
}

/// `x` is a line of `ls` that is not blank, without its first `n`
/// characters.
pub open spec fn kept_from(ls: Seq<Seq<char>>, n: nat, x: Seq<char>) -> bool {
    exists|j: int| 0 <= j < ls.len() && !is_blank(#[trigger] ls[j]) && x == skip_chars(ls[j], n)
}

proof fn lemma_kept_lines_elems(ls: Seq<Seq<char>>, n: nat)
    ensures
        forall|t: int| 0 <= t < kept_lines(ls, n).len() ==> kept_from(ls, n, #[trigger] kept_lines(ls, n)[t]),
    decreases ls.len(),
{
    if ls.len() > 0 {
        let f = ls.drop_last();
        lemma_kept_lines_elems(f, n);
        assert forall|t: int| 0 <= t < kept_lines(ls, n).len() implies kept_from(ls, n, #[trigger] kept_lines(ls, n)[t]) by {
            if t < kept_lines(f, n).len() {
                assert(kept_from(f, n, kept_lines(f, n)[t]));
                let j = choose|j: int| 0 <= j < f.len() && !is_blank(#[trigger] f[j]) && kept_lines(f, n)[t] == skip_chars(f[j], n);
                assert(ls[j] == f[j]);
            } else {
                assert(ls[ls.len() - 1] == ls.last());
            }
        }
    }
}

proof fn lemma_kept_lines_first(ls: Seq<Seq<char>>, n: nat, k: int)
    requires
        is_first_nonblank(ls, k),
    ensures
        kept_lines(ls, n).len() > 0,
        kept_lines(ls, n)[0] == skip_chars(ls[k], n),
    decreases ls.len(),
{
    let f = ls.drop_last();
    if k == ls.len() - 1 {
        lemma_kept_lines_blank(f, n);
    } else {
        assert(is_first_nonblank(f, k)) by {
            assert(f[k] == ls[k]);
            assert forall|j: int| 0 <= j < k implies is_blank(#[trigger] f[j]) by {
                assert(f[j] == ls[j]);
            }
        }
        lemma_kept_lines_first(f, n, k);
        assert(f[k] == ls[k]);
    }
}

proof fn lemma_kept_lines_blank(ls: Seq<Seq<char>>, n: nat)
    requires
        forall|j: int| 0 <= j < ls.len() ==> is_blank(#[trigger] ls[j]),
    ensures
        kept_lines(ls, n).len() == 0,
    decreases ls.len(),
{
    if ls.len() > 0 {
        let f = ls.drop_last();
        assert forall|j: int| 0 <= j < f.len() implies is_blank(#[trigger] f[j]) by {
            assert(f[j] == ls[j]);
        }
        assert(ls[ls.len() - 1] == ls.last());
        lemma_kept_lines_blank(f, n);
    }
}

proof fn lemma_kept_lines_zero(ls: Seq<Seq<char>>)
    requires
        forall|j: int| 0 <= j < ls.len() ==> !is_blank(#[trigger] ls[j]),
    ensures
        kept_lines(ls, 0) == ls,
    decreases ls.len(),
{
    if ls.len() > 0 {
        let f = ls.drop_last();
        assert forall|j: int| 0 <= j < f.len() implies !is_blank(#[trigger] f[j]) by {
            assert(f[j] == ls[j]);
        }
        assert(ls[ls.len() - 1] == ls.last());
        lemma_kept_lines_zero(f);
        assert(skip_chars(ls.last(), 0) =~= ls.last());
        assert(f.push(ls.last()) =~= ls);
    }
}

proof fn lemma_lines_from_no_newline(s: Seq<char>, cur: Seq<char>)
    requires
        no_newline(cur),
    ensures
        forall|k: int| 0 <= k < lines_from(s, cur).len() ==> no_newline(#[trigger] lines_from(s, cur)[k]),
    decreases s.len(),
{
    if s.len() == 0 {
        if cur.len() > 0 {
            assert(lines_from(s, cur) == seq![cur]);
            assert(lines_from(s, cur)[0] == cur);
        }
    } else if s[0] == '\n' {
        lemma_lines_from_no_newline(s.drop_first(), Seq::empty());
        let r = lines_from(s.drop_first(), Seq::empty());
        let c = strip_cr(cur);
        assert forall|i: int| 0 <= i < c.len() implies #[trigger] c[i] != '\n' by {
            assert(c[i] == cur[i]);
        }
        assert(no_newline(c));
        assert(lines_from(s, cur) == seq![c] + r);
        assert forall|k: int| 0 <= k < lines_from(s, cur).len() implies no_newline(#[trigger] lines_from(s, cur)[k]) by {
            if k > 0 {
                assert(lines_from(s, cur)[k] == r[k - 1]);
            } else {
                assert(lines_from(s, cur)[k] == c);
            }
        }
    } else {
        let c2 = cur.push(s[0]);
        assert forall|i: int| 0 <= i < c2.len() implies #[trigger] c2[i] != '\n' by {
            if i < cur.len() {
                assert(c2[i] == cur[i]);
            }
        }
        lemma_lines_from_no_newline(s.drop_first(), c2);
        assert(lines_from(s, cur) == lines_from(s.drop_first(), c2));
    }
}

/// Dedenting code whose indentation is consistent a second time changes it
/// no more: its first line that is not blank is no longer indented, and
/// its lines read back as they were written.
pub proof fn lemma_fix_indentation_idempotent(s: Seq<char>)
    requires
        consistently_indented(s),
    ensures
        fixed_indentation(fixed_indentation(s, false), false) == fixed_indentation(s, false),
{
    let ls = lines(s);
    if exists|k: int| is_first_nonblank(ls, k) {
        let k = choose|k: int| is_first_nonblank(ls, k);
        let n = indent_width(ls[k]);
        let out = fixed_indentation(s, false);
        let kl = kept_lines(ls, n);
        assert(out == dedented(ls, n, false));
        lemma_dedented_kept(ls, n);
        lemma_kept_lines_elems(ls, n);
        lemma_lines_from_no_newline(s, Seq::empty());
        assert forall|t: int| 0 <= t < kl.len() implies {
            &&& no_newline(#[trigger] kl[t])
            &&& strip_cr(kl[t]) == kl[t]
            &&& !is_blank(kl[t])
        } by {
            assert(kept_from(ls, n, kl[t]));
            let j = choose|j: int| 0 <= j < ls.len() && !is_blank(#[trigger] ls[j]) && kl[t] == skip_chars(ls[j], n);
            let l = ls[j];
            lemma_leading_ws(l);
            assert(leading_ws(l) >= n);
            assert(l.last() != '\r');
            let w = leading_ws(l) as int;
            assert(kl[t] =~= l.skip(n as int));
            assert(no_newline(l));
            assert forall|i: int| 0 <= i < kl[t].len() implies #[trigger] kl[t][i] != '\n' by {
                assert(kl[t][i] == l[i + n]);
            }
            assert(kl[t].last() == l.last());
            assert(kl[t][w - n] == l[w]);
        }
        lemma_lines_of_newline_ended(kl);
        assert(lines(out) == kl);
        lemma_kept_lines_first(ls, n, k);
        let l0 = ls[k];
        lemma_leading_ws(l0);
        assert(is_first_nonblank(kl, 0));
        lemma_first_nonblank_unique(kl, 0);
        assert(kl[0] =~= l0.skip(n as int));
        assert(kl[0][0] == l0[n as int]);
        assert(leading_ws(kl[0]) == 0);
        assert(kl[0].take(0) =~= Seq::<char>::empty());
        assert(indent_width(kl[0]) == 0);
        assert forall|j: int| 0 <= j < kl.len() implies !is_blank(#[trigger] kl[j]) by {}
        lemma_kept_lines_zero(kl);
        lemma_dedented_kept(kl, 0);
    } else {
        assert(lines(Seq::<char>::empty()) =~= Seq::<Seq<char>>::empty());
    }
}

} // verus!
