use vstd::prelude::*;
use vstd::string::{StrSliceExecFns, StringExecFns};

use crate::commons::{
    join_range, lowercase, parse_u16, seq_join, spec_parse_u16, spec_starts_with, starts_with,
    str_chars, str_eq, string_of_range, strings_view, to_lowercase,
};

verus! {

/// The request methods that the server tells apart.
#[derive(Clone, Copy, Debug, PartialEq, Eq, Structural)]
pub enum HttpMethod {
    Get,
    Post,
    Other,
}

/// What the server does with a request.
#[derive(Clone, Copy, Debug, PartialEq, Eq, Structural)]
pub enum Route {
    /// Send the start page.
    Index,
    /// Send a style sheet or a script.
    StaticFile,
    /// Answer a search.
    Search,
    /// Send the not-found page.
    NotFound,
}

/// The route of a request: `GET /`, `GET /css/...` and `GET /js/...` with
/// something after the prefix, and `POST /search`; anything else is not
/// found.
pub open spec fn spec_route(method: HttpMethod, url: Seq<char>) -> Route {
    if method == HttpMethod::Get && url == "/"@ {
        Route::Index
    } else if method == HttpMethod::Get && spec_starts_with(url, "/css/"@) && url.len() > "/css/"@.len() {
        Route::StaticFile
    } else if method == HttpMethod::Get && spec_starts_with(url, "/js/"@) && url.len() > "/js/"@.len() {
        Route::StaticFile
    } else if method == HttpMethod::Post && url == "/search"@ {
        Route::Search
    } else {
        Route::NotFound
    }
}

/// Whether `url` begins with `prefix` and goes on past it.
fn has_prefix_and_more(url: &str, prefix: &str) -> (res: bool)
    ensures
        res == (spec_starts_with(url@, prefix@) && url@.len() > prefix@.len()),
{
    starts_with(url, prefix) && url.unicode_len() > prefix.unicode_len()
}

/// The route of a request with method `method` for `url`.
pub fn route(method: HttpMethod, url: &str) -> (res: Route)
    ensures
        res == spec_route(method, url@),
{
    match method {
        HttpMethod::Get => {
            if str_eq(url, "/") {
                Route::Index
            } else if has_prefix_and_more(url, "/css/") {
                Route::StaticFile
            } else if has_prefix_and_more(url, "/js/") {
                Route::StaticFile
            } else {
                Route::NotFound
            }
        },
        HttpMethod::Post => {
            if str_eq(url, "/search") {
                Route::Search
            } else {
                Route::NotFound
            }
        },
        HttpMethod::Other => Route::NotFound,
    }
}

/// What each request is routed to: `GET /` is the start page, a `GET` of
/// anything under `/css/` or `/js/` is a static file whatever follows the
/// prefix, `POST /search` is a search, and every other method is not found.
pub proof fn law_route(url: Seq<char>)
    ensures
        url == "/"@ ==> spec_route(HttpMethod::Get, url) == Route::Index,
        spec_starts_with(url, "/css/"@) && url.len() > 5 ==> spec_route(HttpMethod::Get, url) == Route::StaticFile,
        spec_starts_with(url, "/js/"@) && url.len() > 4 ==> spec_route(HttpMethod::Get, url) == Route::StaticFile,
        url == "/search"@ ==> spec_route(HttpMethod::Post, url) == Route::Search,
        url != "/search"@ ==> spec_route(HttpMethod::Post, url) == Route::NotFound,
        spec_route(HttpMethod::Other, url) == Route::NotFound,
        spec_route(HttpMethod::Get, url) == Route::StaticFile ==> (spec_starts_with(url, "/css/"@) && url.len() > 5)
            || (spec_starts_with(url, "/js/"@) && url.len() > 4),
        spec_route(HttpMethod::Get, url) != Route::Search,
{
    reveal_strlit("/");
    reveal_strlit("/css/");
    reveal_strlit("/js/");
    reveal_strlit("/search");
}

/// The position of the first `/` in `s`, or its length when it has none.
pub open spec fn slash_pos(s: Seq<char>) -> nat
    decreases s.len(),
{
    if s.len() == 0 || s[0] == '/' {
        0
    } else {
        1 + slash_pos(s.drop_first())
    }
}

/// `slash_pos` is the position of the first `/`.
pub proof fn lemma_slash_pos(s: Seq<char>)
    ensures
        slash_pos(s) <= s.len(),
        forall|j: int| 0 <= j < slash_pos(s) ==> #[trigger] s[j] != '/',
        slash_pos(s) < s.len() ==> s[slash_pos(s) as int] == '/',
        slash_pos(s) < s.len() <==> s.contains('/'),
    decreases s.len(),
{
    if s.len() > 0 && s[0] != '/' {
        lemma_slash_pos(s.drop_first());
        assert forall|j: int| 0 <= j < slash_pos(s) implies #[trigger] s[j] != '/' by {
            if j > 0 {
                assert(s[j] == s.drop_first()[j - 1]);
            }
        }
        if s.contains('/') {
            let k = choose|k: int| 0 <= k < s.len() && s[k] == '/';
            assert(s.drop_first()[k - 1] == '/');
        }
        if s.drop_first().contains('/') {
            let k = choose|k: int| 0 <= k < s.drop_first().len() && s.drop_first()[k] == '/';
            assert(s[k + 1] == '/');
        }
    } else if s.len() > 0 {
        assert(s[0] == '/');
    }
}

/// The text before the first `/` of `s` (all of it when there is none).
pub open spec fn first_segment(s: Seq<char>) -> Seq<char> {
    s.take(slash_pos(s) as int)
}

/// The text after the first `/` of `s` (nothing when there is none).
pub open spec fn after_first_slash(s: Seq<char>) -> Seq<char> {
    if slash_pos(s) < s.len() {
        s.skip(slash_pos(s) + 1int)
    } else {
        Seq::empty()
    }
}

/// The file that a static request names and the content type it is sent
/// with.
pub struct StaticFile {
    pub path: String,
    pub content_type: String,
}

/// The path and content type of an optional static file.
pub open spec fn static_file_view(f: Option<StaticFile>) -> Option<(Seq<char>, Seq<char>)> {
    match f {
        Some(f) => Some((f.path@, f.content_type@)),
        None => None,
    }
}

/// The file for the lower-cased kind `kind` and the rest of the path
/// `rest`: style sheets under `./static/css/`, scripts under `./static/js/`.
pub open spec fn spec_static_target(kind: Seq<char>, rest: Seq<char>) -> Option<(Seq<char>, Seq<char>)> {
    if kind == "css"@ {
        Some(("./static/css/"@ + rest, "text/css"@))
    } else if kind == "js"@ {
        Some(("./static/js/"@ + rest, "application/javascript"@))
    } else {
        None
    }
}

/// Style sheets are always looked for under `./static/css/` and scripts
/// under `./static/js/`, followed by the whole rest of the path; no other
/// kind is served.
pub proof fn law_static_target(kind: Seq<char>, rest: Seq<char>)
    ensures
        spec_static_target("css"@, rest) == Some(("./static/css/"@ + rest, "text/css"@)),
        spec_static_target("js"@, rest) == Some(("./static/js/"@ + rest, "application/javascript"@)),
        kind != "css"@ && kind != "js"@ ==> spec_static_target(kind, rest).is_none(),
{
    reveal_strlit("css");
    reveal_strlit("js");
    assert("css"@.len() != "js"@.len());
}

/// The first `/` of a text that starts with a part without `/` lies after
/// that part.
proof fn lemma_slash_pos_concat(x: Seq<char>, y: Seq<char>)
    requires
        !x.contains('/'),
    ensures
        slash_pos(x + y) == x.len() + slash_pos(y),
    decreases x.len(),
{
    if x.len() == 0 {
        assert(x + y =~= y);
    } else {
        assert(x[0] != '/');
        assert((x + y)[0] == x[0]);
        assert((x + y).drop_first() =~= x.drop_first() + y);
        assert(!x.drop_first().contains('/')) by {
            if x.drop_first().contains('/') {
                let k = choose|k: int| 0 <= k < x.drop_first().len() && x.drop_first()[k] == '/';
                assert(x[k + 1] == '/');
            }
        }
        lemma_slash_pos_concat(x.drop_first(), y);
    }
}

/// A request for `/<kind>/<rest>` asks for the file `rest` of the kind
/// `kind` (lower-cased), whatever `rest` holds; `/<kind>` alone asks for the
/// kind with an empty rest.
pub proof fn law_static_file_url(kind: Seq<char>, rest: Seq<char>)
    requires
        !kind.contains('/'),
    ensures
        spec_static_file("/"@ + kind + "/"@ + rest) == spec_static_target(lowercase(kind), rest),
        spec_static_file("/"@ + kind) == spec_static_target(lowercase(kind), Seq::empty()),
{
    reveal_strlit("/");
    let slash = "/"@;
    assert(slash =~= seq!['/']);
    let url = slash + kind + slash + rest;
    assert(slash_pos(url) == 0);
    assert(after_first_slash(url) =~= kind + (slash + rest));
    lemma_slash_pos_concat(kind, slash + rest);
    assert(slash_pos(slash + rest) == 0);
    let tail = kind + (slash + rest);
    assert(first_segment(tail) =~= kind);
    assert(after_first_slash(tail) =~= rest);
    let short = slash + kind;
    assert(slash_pos(short) == 0);
    assert(after_first_slash(short) =~= kind);
    lemma_slash_pos_concat(kind, Seq::empty());
    assert(kind + Seq::<char>::empty() =~= kind);
    assert(first_segment(kind) =~= kind);
    assert(after_first_slash(kind) =~= Seq::<char>::empty());
}

/// The file for the lower-cased kind `kind` and the rest of the path `rest`.
pub fn static_target(kind: &str, rest: &str) -> (res: Option<StaticFile>)
    ensures
        static_file_view(res) == spec_static_target(kind@, rest@),
{
    if str_eq(kind, "css") {
        let mut path = String::from_str("./static/css/");
        path.append(rest);
        Some(StaticFile { path, content_type: String::from_str("text/css") })
    } else if str_eq(kind, "js") {
        let mut path = String::from_str("./static/js/");
        path.append(rest);
        Some(StaticFile { path, content_type: String::from_str("application/javascript") })
    } else {
        None
    }
}

/// The static file that `url` asks for: the segment after its first `/`,
/// lower-cased, says which kind, and everything after that segment's `/` is
/// the file's path within that kind.
pub open spec fn spec_static_file(url: Seq<char>) -> Option<(Seq<char>, Seq<char>)> {
    let tail = after_first_slash(url);
    spec_static_target(lowercase(first_segment(tail)), after_first_slash(tail))
}

/// The position of the first `/` in `chars`.
fn find_slash(chars: &Vec<char>) -> (res: usize)
    ensures
        res == slash_pos(chars@),
{
    let mut i: usize = 0;
    while i < chars.len() && chars[i] != '/'
        invariant
            i <= chars@.len(),
            forall|j: int| 0 <= j < i ==> #[trigger] chars@[j] != '/',
        decreases chars@.len() - i,
    {
        i += 1;
    }
    proof {
        lemma_slash_pos(chars@);
    }
    i
}

/// The static file that `url` asks for, if its kind is one the server has.
pub fn static_file(url: &str) -> (res: Option<StaticFile>)
    requires
        url@.contains('/'),
    ensures
        static_file_view(res) == spec_static_file(url@),
{
    let chars = str_chars(url);
    proof {
        lemma_slash_pos(chars@);
        assert(chars@.contains('/'));
    }
    let first = find_slash(&chars);
    let tail = string_of_range(&chars, first + 1, chars.len());
    let tail_chars = str_chars(tail.as_str());
    proof {
        lemma_slash_pos(tail_chars@);
    }
    let second = find_slash(&tail_chars);
    let kind = string_of_range(&tail_chars, 0, second);
    let rest = if second < tail_chars.len() {
        string_of_range(&tail_chars, second + 1, tail_chars.len())
    } else {
        String::new()
    };
    assert(tail_chars@ == after_first_slash(url@));
    assert(kind@ == first_segment(tail_chars@));
    assert(rest@ =~= after_first_slash(tail_chars@));
    let lower = to_lowercase(kind.as_str());
    static_target(lower.as_str(), rest.as_str())
}

/// The port the server listens on and whether it listens on every
/// interface or on the loopback one only.
#[derive(Clone, Copy, Debug, PartialEq, Eq, Structural)]
pub struct ServeConfig {
    pub port: u16,
    pub expose: bool,
}

/// Why the arguments of `serve` were refused.
#[derive(Clone, Copy, Debug, PartialEq, Eq, Structural)]
pub enum ArgError {
    /// The value after `-p` is not a port number.
    PortNotNumber,
    /// `-p` came last, with no value after it.
    NoPortNumber,
    /// An argument that `serve` does not know.
    UnknownArgument,
}

impl ArgError {
    /// The message that reports the error.
    pub fn message(&self) -> (res: &'static str)
        ensures
            res@ == match self {
                ArgError::PortNotNumber => "Port must be a number"@,
                ArgError::NoPortNumber => "No port number provided"@,
                ArgError::UnknownArgument => "Unknown argument"@,
            },
    {
        match self {
            ArgError::PortNotNumber => "Port must be a number",
            ArgError::NoPortNumber => "No port number provided",
            ArgError::UnknownArgument => "Unknown argument",
        }
    }
}

impl ServeConfig {
    /// Port 8000 on the loopback interface.
    pub open spec fn spec_default() -> ServeConfig {
        ServeConfig { port: 8000, expose: false }
    }

    /// The IPv4 address to listen on: `0.0.0.0` when exposed, else
    /// `127.0.0.1`.
    pub fn host(&self) -> (res: (u8, u8, u8, u8))
        ensures
            res == if self.expose {
                (0u8, 0u8, 0u8, 0u8)
            } else {
                (127u8, 0u8, 0u8, 1u8)
            },
    {
        if self.expose {
            (0, 0, 0, 0)
        } else {
            (127, 0, 0, 1)
        }
    }
}

/// The settings that the arguments `args` of `serve` give, starting from
/// `cfg` and read from left to right: `-p`/`--port` and a port number set the
/// port, `--host` exposes the server; the first bad argument is the error.
pub open spec fn spec_serve_args(args: Seq<Seq<char>>, cfg: ServeConfig) -> Result<ServeConfig, ArgError>
    decreases args.len(),
{
    if args.len() == 0 {
        Ok(cfg)
    } else if args[0] == "-p"@ || args[0] == "--port"@ {
        if args.len() < 2 {
            Err(ArgError::NoPortNumber)
        } else {
            match spec_parse_u16(args[1]) {
                Some(port) => spec_serve_args(args.skip(2), ServeConfig { port, expose: cfg.expose }),
                None => Err(ArgError::PortNotNumber),
            }
        }
    } else if args[0] == "--host"@ {
        spec_serve_args(args.skip(1), ServeConfig { port: cfg.port, expose: true })
    } else {
        Err(ArgError::UnknownArgument)
    }
}

/// `--host` exposes the server and changes nothing else: the port stays
/// whatever it was, before and after the flag.
pub proof fn law_host_keeps_port(args: Seq<Seq<char>>, cfg: ServeConfig)
    ensures
        spec_serve_args(seq!["--host"@] + args, cfg) == spec_serve_args(
            args,
            ServeConfig { port: cfg.port, expose: true },
        ),
{
    reveal_strlit("--host");
    reveal_strlit("-p");
    reveal_strlit("--port");
    let a = seq!["--host"@] + args;
    assert(a[0] == "--host"@);
    assert("--host"@.len() != "-p"@.len());
    assert("--host"@[2] != "--port"@[2]);
    assert(a.skip(1) =~= args);
}

/// `-p` or `--port` followed by a port number sets the port to that number
/// and keeps the exposure; followed by anything else it is an error, and
/// with nothing after it it is an error.
pub proof fn law_port_flag(flag: Seq<char>, value: Seq<char>, args: Seq<Seq<char>>, cfg: ServeConfig)
    requires
        flag == "-p"@ || flag == "--port"@,
    ensures
        spec_parse_u16(value) matches Some(p) ==> spec_serve_args(seq![flag, value] + args, cfg) == spec_serve_args(
            args,
            ServeConfig { port: p, expose: cfg.expose },
        ),
        spec_parse_u16(value) is None ==> spec_serve_args(seq![flag, value] + args, cfg) == Err::<ServeConfig, ArgError>(
            ArgError::PortNotNumber,
        ),
        spec_serve_args(seq![flag], cfg) == Err::<ServeConfig, ArgError>(ArgError::NoPortNumber),
{
    let a = seq![flag, value] + args;
    assert(a[0] == flag);
    assert(a[1] == value);
    assert(a.skip(2) =~= args);
}

/// Any number of `--host` flags expose the server and keep its port.
pub proof fn law_hosts_keep_port(args: Seq<Seq<char>>, cfg: ServeConfig)
    requires
        args.len() > 0,
        forall|i: int| 0 <= i < args.len() ==> #[trigger] args[i] == "--host"@,
    ensures
        spec_serve_args(args, cfg) == Ok::<ServeConfig, ArgError>(ServeConfig { port: cfg.port, expose: true }),
    decreases args.len(),
{
    let rest = args.drop_first();
    assert(args =~= seq!["--host"@] + rest);
    law_host_keeps_port(rest, cfg);
    if rest.len() > 0 {
        assert forall|i: int| 0 <= i < rest.len() implies #[trigger] rest[i] == "--host"@ by {
            assert(rest[i] == args[i + 1]);
        }
        law_hosts_keep_port(rest, ServeConfig { port: cfg.port, expose: true });
    }
}

/// The settings that the arguments of `serve` give.
pub fn parse_serve_args(args: &Vec<String>) -> (res: Result<ServeConfig, ArgError>)
    ensures
        res == spec_serve_args(strings_view(args@), ServeConfig::spec_default()),
{
    let ghost view = strings_view(args@);
    let mut cfg = ServeConfig { port: 8000, expose: false };
    let mut i: usize = 0;
    assert(view.skip(0) =~= view);
    while i < args.len()
        invariant
            i <= args@.len(),
            view == strings_view(args@),
            spec_serve_args(view, ServeConfig::spec_default()) == spec_serve_args(view.skip(i as int), cfg),
        decreases args@.len() - i,
    {
        let ghost rest = view.skip(i as int);
        assert(rest[0] == args@[i as int]@);
        let arg = args[i].as_str();
        if str_eq(arg, "-p") || str_eq(arg, "--port") {
            if i + 1 >= args.len() {
                return Err(ArgError::NoPortNumber);
            }
            assert(rest[1] == args@[i + 1]@);
            match parse_u16(args[i + 1].as_str()) {
                Some(port) => {
                    cfg = ServeConfig { port, expose: cfg.expose };
                },
                None => {
                    return Err(ArgError::PortNotNumber);
                },
            }
            assert(rest.skip(2) =~= view.skip(i + 2));
            i += 2;
        } else if str_eq(arg, "--host") {
            cfg = ServeConfig { port: cfg.port, expose: true };
            assert(rest.skip(1) =~= view.skip(i + 1));
            i += 1;
        } else {
            return Err(ArgError::UnknownArgument);
        }
    }
    assert(view.skip(i as int) =~= Seq::<Seq<char>>::empty());
    Ok(cfg)
}

/// One result of a search: `{"doc": "<doc>", "tf_idf": "<score>"}`.
pub open spec fn spec_result_entry(doc: Seq<char>, score: Seq<char>) -> Seq<char> {
    "{"@ + "\"doc\": \""@ + doc + "\", \"tf_idf\": \""@ + score + "\""@ + "}"@
}

/// The rendered entries of `results`.
pub open spec fn result_entries(results: Seq<(String, String)>) -> Seq<Seq<char>> {
    results.map_values(|r: (String, String)| spec_result_entry(r.0@, r.1@))
}

/// The body that answers a search: a JSON list with one object per pair of
/// document path and rendered score.
pub fn search_response(results: &Vec<(String, String)>) -> (res: String)
    ensures
        res@ == "["@ + seq_join(result_entries(results@), ","@) + "]"@,
{
    let mut entries: Vec<String> = Vec::new();
    let mut i: usize = 0;
    while i < results.len()
        invariant
            i <= results@.len(),
            strings_view(entries@) =~= result_entries(results@).take(i as int),
        decreases results@.len() - i,
    {
        let mut entry = String::from_str("{");
        entry.append("\"doc\": \"");
        entry.append(results[i].0.as_str());
        entry.append("\", \"tf_idf\": \"");
        entry.append(results[i].1.as_str());
        entry.append("\"");
        entry.append("}");
        assert(entry@ == spec_result_entry(results@[i as int].0@, results@[i as int].1@));
        let ghost before = strings_view(entries@);
        entries.push(entry);
        assert(strings_view(entries@) =~= before.push(entry@));
        assert(result_entries(results@).take(i + 1) =~= result_entries(results@).take(i as int).push(entry@));
        i += 1;
    }
    assert(result_entries(results@).take(results@.len() as int) =~= result_entries(results@));
    let joined = join_range(&entries, 0, entries.len(), ",");
    assert(entries@.subrange(0, entries@.len() as int) =~= entries@);
    let mut res = String::from_str("[");
    res.append(joined.as_str());
    res.append("]");
    res
}

} // verus!
