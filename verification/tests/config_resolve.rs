//! Configuration building, virtual-host resolution, and validation.

use webserv::config::{
    extract_auto_index, extract_cgi, extract_error_page, extract_listen, extract_max_body_size,
    extract_return, LocationBlock, Server, ServerBlock,
};
use webserv::http::Method;
use webserv::request::Request;
use webserv::resolve::{
    choose_server_from, get_request_location, parse_request, FsKind, FsProbe,
};

fn dir(name: &[u8], vals: &[&[u8]]) -> (Vec<u8>, Vec<Vec<u8>>) {
    (name.to_vec(), vals.iter().map(|v| v.to_vec()).collect())
}

fn block(directives: Vec<(Vec<u8>, Vec<Vec<u8>>)>) -> ServerBlock {
    ServerBlock { directives, locations: Vec::new(), cgi: Vec::new() }
}

fn static_site() -> Vec<Server> {
    let b = block(vec![
        dir(b"listen", &[b"8080"]),
        dir(b"root", &[b"/srv"]),
        dir(b"index", &[b"i.html"]),
        dir(b"allowed_methods", &[b"GET"]),
    ]);
    Server::init_servers(&vec![b]).expect("valid config")
}

fn parse(head: &[u8]) -> Request {
    Request::try_from(head).expect("well-formed head")
}

#[test]
fn extractors_read_their_directives() {
    assert_eq!(extract_max_body_size(&vec![b"10".to_vec()]), Ok(10));
    assert!(extract_max_body_size(&vec![b"x".to_vec()]).is_err());
    assert_eq!(extract_auto_index(&vec![b"on".to_vec()]), Ok(true));
    assert_eq!(extract_auto_index(&vec![b"off".to_vec()]), Ok(false));
    assert!(extract_auto_index(&vec![b"maybe".to_vec()]).is_err());
    assert_eq!(extract_listen(&vec![b"8080".to_vec()]), Ok((Some(8080), false)));
    assert_eq!(
        extract_listen(&vec![b"81".to_vec(), b"default".to_vec()]),
        Ok((Some(81), true))
    );
    assert!(extract_listen(&vec![b"99999".to_vec()]).is_err());
    assert_eq!(
        extract_return(&vec![b"301".to_vec(), b"/new".to_vec()]),
        Ok((301, Some(b"/new".to_vec())))
    );
    assert_eq!(extract_return(&vec![b"404".to_vec(), b"/new".to_vec()]), Ok((404, None)));
    assert_eq!(
        extract_cgi(&vec![b".py".to_vec(), b"/usr/bin/python3".to_vec()]),
        Ok((b"py".to_vec(), b"/usr/bin/python3".to_vec()))
    );
}

#[test]
fn error_page_directive_splits_pages_and_redirects() {
    let (pages, redirects) = extract_error_page(&vec![
        b"404".to_vec(),
        b"/404.html".to_vec(),
        b"410".to_vec(),
        b"=301".to_vec(),
        b"/gone".to_vec(),
    ])
    .unwrap();
    assert_eq!(pages.unwrap(), vec![(404, b"/404.html".to_vec())]);
    assert_eq!(redirects.unwrap(), vec![(410, (Some(301), b"/gone".to_vec()))]);
    assert!(extract_error_page(&vec![b"404".to_vec()]).is_err());
    assert!(extract_error_page(&Vec::new()).is_err());
}

#[test]
fn server_build_reads_directives() {
    let servers = static_site();
    assert_eq!(servers.len(), 1);
    let s = &servers[0];
    assert_eq!(s.port, Some(8080));
    assert_eq!(s.root, Some(b"/srv".to_vec()));
    assert_eq!(s.index, Some(b"i.html".to_vec()));
    assert_eq!(s.methods, Some(vec![Method::GET]));
    assert!(!s.is_default());
}

#[test]
fn server_rejects_alias_directive() {
    let b = block(vec![dir(b"alias", &[b"/x/"])]);
    assert!(Server::init_servers(&vec![b]).is_err());
}

#[test]
fn server_rejects_unknown_allowed_method() {
    let b = block(vec![dir(b"allowed_methods", &[b"BREW"])]);
    assert!(Server::init_servers(&vec![b]).is_err());
}

#[test]
fn server_keeps_unknown_directives() {
    let b = block(vec![dir(b"motto", &[b"hello", b"world"])]);
    let servers = Server::init_servers(&vec![b]).unwrap();
    assert_eq!(servers[0].get(b"motto"), Some(b"hello world".to_vec()));
    assert_eq!(servers[0].get(b"absent"), None);
}

#[test]
fn server_block_lookup() {
    let b = ServerBlock {
        directives: vec![dir(b"root", &[b"/srv"])],
        locations: vec![(
            b"/api".to_vec(),
            LocationBlock {
                modifier: None,
                path: b"/api".to_vec(),
                directives: Vec::new(),
                cgi: Vec::new(),
            },
        )],
        cgi: Vec::new(),
    };
    assert_eq!(b.get(b"root"), vec![b"/srv".to_vec()]);
    assert!(b.get(b"index").is_empty());
    assert!(b.get_location(b"/api").is_some());
    assert!(b.get_location(b"/other").is_none());
}

#[test]
fn location_inherits_server_fields() {
    let b = ServerBlock {
        directives: vec![
            dir(b"root", &[b"/srv"]),
            dir(b"index", &[b"i.html"]),
            dir(b"allowed_methods", &[b"GET", b"POST"]),
            dir(b"client_max_body_size", &[b"100"]),
        ],
        locations: vec![(
            b"/api".to_vec(),
            LocationBlock {
                modifier: None,
                path: b"/api".to_vec(),
                directives: vec![dir(b"client_max_body_size", &[b"5"])],
                cgi: Vec::new(),
            },
        )],
        cgi: Vec::new(),
    };
    let servers = Server::init_servers(&vec![b]).unwrap();
    let loc = &servers[0].locations[0];
    assert_eq!(loc.root, Some(b"/srv".to_vec()));
    assert_eq!(loc.index, Some(b"i.html".to_vec()));
    assert_eq!(loc.max_body_size, Some(5));
    assert_eq!(loc.methods, Some(vec![Method::GET, Method::POST]));
    assert!(!loc.exact_path);
    assert_eq!(loc.find(b"nothing"), None);
}

#[test]
fn location_rejects_root_after_alias() {
    let b = ServerBlock {
        directives: Vec::new(),
        locations: vec![(
            b"/a".to_vec(),
            LocationBlock {
                modifier: None,
                path: b"/a".to_vec(),
                directives: vec![dir(b"alias", &[b"/x/"]), dir(b"root", &[b"/y"])],
                cgi: Vec::new(),
            },
        )],
        cgi: Vec::new(),
    };
    assert!(Server::init_servers(&vec![b]).is_err());
}

#[test]
fn host_header_picks_the_named_server() {
    let b1 = block(vec![dir(b"listen", &[b"80"]), dir(b"server_name", &[b"alpha"])]);
    let b2 = block(vec![
        dir(b"listen", &[b"80", b"default"]),
        dir(b"server_name", &[b"beta"]),
    ]);
    let servers = Server::init_servers(&vec![b1, b2]).unwrap();
    let r = parse(b"GET / HTTP/1.1\r\nHost: beta");
    assert_eq!(choose_server_from(&r, &servers), 1);
    let r2 = parse(b"GET / HTTP/1.1\r\nHost: nobody");
    assert_eq!(choose_server_from(&r2, &servers), 1, "default server answers");
    let r3 = parse(b"GET / HTTP/1.1\r\nX: y");
    let b3 = block(vec![dir(b"listen", &[b"80"])]);
    let b4 = block(vec![dir(b"listen", &[b"80"])]);
    let plain = Server::init_servers(&vec![b3, b4]).unwrap();
    assert_eq!(choose_server_from(&r3, &plain), 0, "first server is the fallback");
}

#[test]
fn location_selection_prefers_exact_then_longest() {
    let mk_loc = |path: &[u8], modifier: Option<&[u8]>| LocationBlock {
        modifier: modifier.map(|m| m.to_vec()),
        path: path.to_vec(),
        directives: Vec::new(),
        cgi: Vec::new(),
    };
    let b = ServerBlock {
        directives: vec![dir(b"root", &[b"/srv"])],
        locations: vec![
            (b"/".to_vec(), mk_loc(b"/", None)),
            (b"/img".to_vec(), mk_loc(b"/img", None)),
            (b"/img/x".to_vec(), mk_loc(b"/img/x", Some(b"="))),
        ],
        cgi: Vec::new(),
    };
    let servers = Server::init_servers(&vec![b]).unwrap();
    let s = &servers[0];
    let r = parse(b"GET /img/logo HTTP/1.1\r\nHost: x");
    assert_eq!(get_request_location(s, &r), Some(1), "longest prefix wins");
    let r2 = parse(b"GET /img/x HTTP/1.1\r\nHost: x");
    assert_eq!(get_request_location(s, &r2), Some(2), "exact match wins outright");
    let b2 = block(vec![dir(b"root", &[b"/srv"])]);
    let servers2 = Server::init_servers(&vec![b2]).unwrap();
    let r3 = parse(b"GET /none HTTP/1.1\r\nHost: x");
    assert_eq!(get_request_location(&servers2[0], &r3), None);
}

#[test]
fn static_get_resolves_to_index_file() {
    let servers = static_site();
    let mut r = parse(b"GET / HTTP/1.1\r\nHost: x");
    let i = choose_server_from(&r, &servers);
    assert_eq!(get_request_location(&servers[i], &r), None);
    let cfg = servers[i].effective_config();
    let probe = FsProbe { target: FsKind::Dir, index_is_file: true };
    parse_request(&cfg, &mut r, probe).expect("validation passes");
    assert_eq!(r.path(), &b"/srv//i.html".to_vec());
}

#[test]
fn directory_without_slash_redirects() {
    let servers = static_site();
    let mut r = parse(b"GET /sub HTTP/1.1\r\nHost: x");
    let cfg = servers[0].effective_config();
    let probe = FsProbe { target: FsKind::Dir, index_is_file: false };
    let rc = parse_request(&cfg, &mut r, probe).unwrap_err();
    assert_eq!(rc.code(), 301);
    assert_eq!(rc.redirect(), Some(&b"/sub/".to_vec()));
}

#[test]
fn method_gate_rejects_delete() {
    let servers = static_site();
    let mut r = parse(b"DELETE / HTTP/1.1\r\nHost: x");
    let cfg = servers[0].effective_config();
    let probe = FsProbe { target: FsKind::Dir, index_is_file: true };
    let rc = parse_request(&cfg, &mut r, probe).unwrap_err();
    assert_eq!(rc.code(), 405);
    assert_eq!(r.path(), &b"/".to_vec(), "a rejected request keeps its path");
}

#[test]
fn method_gate_rejects_unknown_verb_in_allow_list() {
    let b = block(vec![dir(b"root", &[b"/srv"])]);
    let servers = Server::init_servers(&vec![b]).unwrap();
    let mut r = parse(b"GET / HTTP/1.1\r\nHost: x");
    let cfg = servers[0].effective_config();
    let probe = FsProbe { target: FsKind::File, index_is_file: false };
    let rc = parse_request(&cfg, &mut r, probe).unwrap_err();
    assert_eq!(rc.code(), 405, "no allow-list means no method is allowed");
}

#[test]
fn size_gate_rejects_large_body_and_keeps_connection() {
    let b = block(vec![
        dir(b"root", &[b"/srv"]),
        dir(b"allowed_methods", &[b"POST"]),
        dir(b"client_max_body_size", &[b"10"]),
    ]);
    let servers = Server::init_servers(&vec![b]).unwrap();
    let mut r = parse(b"POST /up HTTP/1.1\r\nHost: x\r\nContent-Length: 20");
    let cfg = servers[0].effective_config();
    let probe = FsProbe { target: FsKind::File, index_is_file: false };
    let rc = parse_request(&cfg, &mut r, probe).unwrap_err();
    assert_eq!(rc.code(), 413);
    assert!(r.keep_connection_alive(), "connection stays usable");
    assert_eq!(r.path(), &b"/up".to_vec(), "a rejected request keeps its path");
}

#[test]
fn missing_root_is_not_found() {
    let b = block(vec![dir(b"allowed_methods", &[b"GET"])]);
    let servers = Server::init_servers(&vec![b]).unwrap();
    let mut r = parse(b"GET / HTTP/1.1\r\nHost: x");
    let cfg = servers[0].effective_config();
    let probe = FsProbe { target: FsKind::File, index_is_file: false };
    let rc = parse_request(&cfg, &mut r, probe).unwrap_err();
    assert_eq!(rc.code(), 404);
}

#[test]
fn autoindex_off_directory_is_forbidden() {
    let b = block(vec![dir(b"root", &[b"/srv"]), dir(b"allowed_methods", &[b"GET"])]);
    let servers = Server::init_servers(&vec![b]).unwrap();
    let mut r = parse(b"GET /dir/ HTTP/1.1\r\nHost: x");
    let cfg = servers[0].effective_config();
    let probe = FsProbe { target: FsKind::Dir, index_is_file: false };
    let rc = parse_request(&cfg, &mut r, probe).unwrap_err();
    assert_eq!(rc.code(), 403);
}

#[test]
fn autoindex_on_serves_the_directory() {
    let b = block(vec![
        dir(b"root", &[b"/srv"]),
        dir(b"allowed_methods", &[b"GET"]),
        dir(b"auto_index", &[b"on"]),
    ]);
    let servers = Server::init_servers(&vec![b]).unwrap();
    let mut r = parse(b"GET /dir/ HTTP/1.1\r\nHost: x");
    let cfg = servers[0].effective_config();
    let probe = FsProbe { target: FsKind::Dir, index_is_file: false };
    parse_request(&cfg, &mut r, probe).expect("listing allowed");
    assert_eq!(r.path(), &b"/srv/dir/".to_vec());
}

#[test]
fn error_tables_answer_by_code() {
    let b = block(vec![
        dir(b"root", &[b"/srv"]),
        dir(b"error_page", &[b"404", b"/404.html", b"410", b"=301", b"/gone"]),
    ]);
    let servers = Server::init_servers(&vec![b]).unwrap();
    let cfg = servers[0].effective_config();
    assert_eq!(cfg.error_page_for(404), Some(&b"/404.html".to_vec()));
    assert_eq!(cfg.error_page_for(500), None);
    let (oc, url) = cfg.error_redirect_for(410).unwrap();
    assert_eq!(*oc, Some(301));
    assert_eq!(url, &b"/gone".to_vec());
    assert!(cfg.error_redirect_for(404).is_none());
}

#[test]
fn return_directive_becomes_a_response() {
    let b = block(vec![dir(b"return", &[b"301", b"/moved"])]);
    let servers = Server::init_servers(&vec![b]).unwrap();
    let cfg = servers[0].effective_config();
    let rc = webserv::resolve::check_return(&cfg).unwrap();
    assert_eq!(rc.code(), 301);
    assert_eq!(rc.redirect(), Some(&b"/moved".to_vec()));
    let plain = Server::init_servers(&vec![block(vec![dir(b"root", &[b"/srv"])])]).unwrap();
    assert!(webserv::resolve::check_return(&plain[0].effective_config()).is_none());
}

#[test]
fn alias_replaces_location_prefix() {
    let b = ServerBlock {
        directives: vec![dir(b"allowed_methods", &[b"GET"])],
        locations: vec![(
            b"/media".to_vec(),
            LocationBlock {
                modifier: None,
                path: b"/media".to_vec(),
                directives: vec![dir(b"alias", &[b"/var/files/"])],
                cgi: Vec::new(),
            },
        )],
        cgi: Vec::new(),
    };
    let servers = Server::init_servers(&vec![b]).unwrap();
    let mut r = parse(b"GET /media/a.png HTTP/1.1\r\nHost: x");
    let li = get_request_location(&servers[0], &r).unwrap();
    let cfg = &servers[0].locations[li];
    let probe = FsProbe { target: FsKind::File, index_is_file: false };
    parse_request(cfg, &mut r, probe).expect("file served");
    assert_eq!(r.path(), &b"/var/files//a.png".to_vec());
}
