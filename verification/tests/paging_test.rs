use canvas_downloader::paging::{
    next_page, parse_next_page, same_link, Link, LinkHeaderError, PageWalk,
};

fn link(uri: &str, params: &[(&str, &str)]) -> Link {
    Link {
        raw_uri: uri.to_string(),
        params: params.iter().map(|(k, v)| (k.to_string(), v.to_string())).collect(),
    }
}

const FIRST_OF_TWO: &str = "<https://c.example/f?page=1>; rel=\"current\",\
    <https://c.example/f?page=2>; rel=\"next\",\
    <https://c.example/f?page=1>; rel=\"first\",\
    <https://c.example/f?page=2>; rel=\"last\"";

#[test]
fn the_next_page_is_found() {
    assert_eq!(
        parse_next_page(Some(FIRST_OF_TWO)),
        Ok(Some("https://c.example/f?page=2".to_string()))
    );
}

#[test]
fn without_a_next_page_there_is_none() {
    assert_eq!(parse_next_page(None), Ok(None));
    let last = "<https://c.example/f?page=2>; rel=\"current\"";
    assert_eq!(parse_next_page(Some(last)), Ok(None));
}

#[test]
fn the_address_of_the_last_page_does_not_end_the_walk() {
    let header = "<https://c.example/f?page=2>; rel=\"current\",\
        <https://c.example/f?page=3>; rel=\"next\",\
        <https://c.example/f?page=2>; rel=\"last\"";
    assert_eq!(parse_next_page(Some(header)), Ok(Some("https://c.example/f?page=3".to_string())));
}

#[test]
fn a_header_without_the_current_page_is_an_error() {
    let header = "<https://c.example/f?page=2>; rel=\"next\",\
        <https://c.example/f?page=2>; rel=\"last\"";
    assert_eq!(parse_next_page(Some(header)), Err(LinkHeaderError::NoCurrent));
}

#[test]
fn a_header_without_the_last_page_is_an_error() {
    let header = "<https://c.example/f?page=1>; rel=\"current\",\
        <https://c.example/f?page=2>; rel=\"next\"";
    assert_eq!(parse_next_page(Some(header)), Err(LinkHeaderError::NoLast));
}

#[test]
fn an_unreadable_header_is_an_error() {
    let header = "<https://c.example/f?page=1>; broken";
    match parse_next_page(Some(header)) {
        Err(LinkHeaderError::Unreadable(error)) => assert!(error.contains("MalformedParam")),
        other => panic!("unexpected outcome {other:?}"),
    }
}

#[test]
fn links_are_equal_by_address_and_parameters() {
    let a = link("u", &[("rel", "x"), ("title", "t")]);
    assert!(same_link(&a, &link("u", &[("title", "t"), ("rel", "x")])));
    assert!(!same_link(&a, &link("v", &[("rel", "x"), ("title", "t")])));
    assert!(!same_link(&a, &link("u", &[("rel", "x")])));
    assert!(!same_link(&a, &link("u", &[("rel", "x"), ("title", "other")])));
}

#[test]
fn equal_current_and_last_links_end_the_list() {
    let links = vec![
        ("next".to_string(), link("n", &[])),
        ("current".to_string(), link("c", &[])),
        ("last".to_string(), link("c", &[])),
    ];
    assert_eq!(next_page(&links), Ok(None));
}

#[test]
fn a_walk_collects_every_response() {
    let mut walk: PageWalk<u32> = PageWalk::start("https://c.example/f".to_string());
    assert_eq!(walk.link.as_deref(), Some("https://c.example/f"));
    assert_eq!(walk.receive(1, Some(FIRST_OF_TWO)), Ok(()));
    assert_eq!(walk.link.as_deref(), Some("https://c.example/f?page=2"));
    assert_eq!(walk.receive(2, None), Ok(()));
    assert_eq!(walk.link, None);
    assert_eq!(walk.resps, vec![1, 2]);
}

#[test]
fn a_bad_header_leaves_the_walk_as_it_is() {
    let mut walk: PageWalk<u32> = PageWalk::start("a".to_string());
    let header = "<https://c.example/f?page=2>; rel=\"next\"";
    assert_eq!(walk.receive(1, Some(header)), Err(LinkHeaderError::NoCurrent));
    assert_eq!(walk.link.as_deref(), Some("a"));
    assert!(walk.resps.is_empty());
}
