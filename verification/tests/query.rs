use arxiv::QueryBuilder;

#[test]
fn query_works() {
    let q = QueryBuilder::new()
        .add_search_query("all:electron")
        .set_start(1)
        .set_max_result(11)
        .query();

    assert_eq!("search_query=all:electron&start=1&max_results=11", q);

    let q = QueryBuilder::new()
        .add_search_query("cat:cs.CR")
        .add_search_query(r#""machine learning""#)
        .query();

    assert_eq!(r#"search_query=cat:cs.CR+"machine learning"&start=0&max_results=10"#, q);
}

#[test]
fn default_query_renders_empty_terms() {
    let q = QueryBuilder::new().query();
    assert_eq!("search_query=&start=0&max_results=10", q);
}

#[test]
fn large_pagination_values_render_in_decimal() {
    let q = QueryBuilder::new().set_start(1234567890).set_max_result(1000).query();
    assert_eq!("search_query=&start=1234567890&max_results=1000", q);
}

#[test]
fn splitting_a_rendered_query_recovers_the_inputs() {
    let q = QueryBuilder::new()
        .add_search_query("all:electron")
        .add_search_query("cat:cs.CR")
        .set_start(7)
        .set_max_result(42)
        .query();

    let rest = q.strip_prefix("search_query=").unwrap();
    let (frag_part, rest) = rest.split_once("&start=").unwrap();
    let (start_part, max_part) = rest.split_once("&max_results=").unwrap();
    let frags: Vec<&str> = if frag_part.is_empty() {
        Vec::new()
    } else {
        frag_part.split('+').collect()
    };
    assert_eq!(frags, vec!["all:electron", "cat:cs.CR"]);
    assert_eq!(start_part.parse::<usize>().unwrap(), 7);
    assert_eq!(max_part.parse::<usize>().unwrap(), 42);
}
