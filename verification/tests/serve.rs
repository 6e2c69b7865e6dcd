use lser::cli::{command, command_of_lowercase, Command};
use lser::serve::{
    parse_serve_args, route, search_response, static_file, static_target, ArgError, HttpMethod, Route, ServeConfig,
};

fn args(v: &[&str]) -> Vec<String> {
    v.iter().map(|s| s.to_string()).collect()
}

#[test]
fn routes() {
    assert_eq!(route(HttpMethod::Get, "/"), Route::Index);
    assert_eq!(route(HttpMethod::Get, "/css/site.css"), Route::StaticFile);
    assert_eq!(route(HttpMethod::Get, "/css/"), Route::NotFound);
    assert_eq!(route(HttpMethod::Get, "/js/a.js"), Route::StaticFile);
    assert_eq!(route(HttpMethod::Get, "/js/"), Route::NotFound);
    assert_eq!(route(HttpMethod::Post, "/search"), Route::Search);
    assert_eq!(route(HttpMethod::Get, "/search"), Route::NotFound);
    assert_eq!(route(HttpMethod::Post, "/"), Route::NotFound);
    assert_eq!(route(HttpMethod::Other, "/"), Route::NotFound);
}

#[test]
fn static_files() {
    let f = static_file("/css/a/b.css").unwrap();
    assert_eq!(f.path, "./static/css/a/b.css");
    assert_eq!(f.content_type, "text/css");
    let f = static_file("/JS/app.js").unwrap();
    assert_eq!(f.path, "./static/js/app.js");
    assert_eq!(f.content_type, "application/javascript");
    assert!(static_file("/img/x.png").is_none());
    let f = static_file("/css").unwrap();
    assert_eq!(f.path, "./static/css/");
    assert!(static_target("html", "x").is_none());
}

#[test]
fn serve_args() {
    assert_eq!(parse_serve_args(&args(&[])), Ok(ServeConfig { port: 8000, expose: false }));
    assert_eq!(parse_serve_args(&args(&["-p", "9000"])), Ok(ServeConfig { port: 9000, expose: false }));
    assert_eq!(
        parse_serve_args(&args(&["--host", "--port", "1", "-p", "2"])),
        Ok(ServeConfig { port: 2, expose: true })
    );
    assert_eq!(parse_serve_args(&args(&["-p"])), Err(ArgError::NoPortNumber));
    assert_eq!(parse_serve_args(&args(&["-p", "x"])), Err(ArgError::PortNotNumber));
    assert_eq!(parse_serve_args(&args(&["-p", "70000"])), Err(ArgError::PortNotNumber));
    assert_eq!(parse_serve_args(&args(&["--verbose", "-p"])), Err(ArgError::UnknownArgument));
    assert_eq!(ArgError::PortNotNumber.message(), "Port must be a number");
    assert_eq!(ArgError::NoPortNumber.message(), "No port number provided");
    assert_eq!(ArgError::UnknownArgument.message(), "Unknown argument");
}

#[test]
fn hosts() {
    assert_eq!(ServeConfig { port: 1, expose: true }.host(), (0, 0, 0, 0));
    assert_eq!(ServeConfig { port: 1, expose: false }.host(), (127, 0, 0, 1));
}

#[test]
fn search_body() {
    let results = vec![("a.txt".to_string(), "0.5".to_string()), ("b.pdf".to_string(), "1".to_string())];
    assert_eq!(
        search_response(&results),
        "[{\"doc\": \"a.txt\", \"tf_idf\": \"0.5\"},{\"doc\": \"b.pdf\", \"tf_idf\": \"1\"}]"
    );
    assert_eq!(search_response(&vec![]), "[]");
}

#[test]
fn commands() {
    assert_eq!(command("serve"), Command::Serve);
    assert_eq!(command("INDEX"), Command::Index);
    assert_eq!(command("Serve"), Command::Serve);
    assert_eq!(command("help"), Command::Unknown);
    assert_eq!(command_of_lowercase("Index"), Command::Unknown);
}
