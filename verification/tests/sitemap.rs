use coventry_scraper::dom::{Element, SavedPage, Selection};
use coventry_scraper::sitemap::{
    extract_course_links_from_html, extract_locs_from_xml, listing_pages, order_sitemaps,
    page_course_links, ListingWalk, SitemapWalk, SlugTable, SITEMAP_INDEX,
};

const A: &str = "https://www.coventry.ac.uk/course-structure/pg/bl/accounting-msc/";
const A_TERM: &str = "https://www.coventry.ac.uk/course-structure/pg/bl/accounting-msc/?term=2025-26";
const A_NEXT: &str = "https://www.coventry.ac.uk/course-structure/pg/bl/accounting-msc/?term=2026-27";
const B: &str = "https://www.coventry.ac.uk/course-structure/ug/bl/business-bsc/";
const C: &str = "https://www.coventry.ac.uk/courses/research/chemistry/";
const NEWS: &str = "https://www.coventry.ac.uk/news/2025/item/";

fn owned(list: &[&str]) -> Vec<String> {
    list.iter().map(|t| t.to_string()).collect()
}

fn sitemap(urls: &[&str]) -> String {
    let tags: Vec<String> = urls.iter().map(|u| format!("<url><loc>{}</loc></url>", u)).collect();
    format!("<urlset>{}</urlset>", tags.join("\n"))
}

#[test]
fn locs_are_trimmed_and_empty_ones_left_out() {
    let xml = "<a><loc> https://x/1 </loc><loc>\n</loc><loc>https://x/2</loc></a>";
    assert_eq!(extract_locs_from_xml(xml), owned(&["https://x/1", "https://x/2"]));
}

#[test]
fn locs_of_malformed_xml() {
    assert_eq!(extract_locs_from_xml("<loc>a</loc><loc>b"), owned(&["a"]));
    assert_eq!(extract_locs_from_xml("<loc>a<loc>b</loc>"), owned(&["a<loc>b"]));
    assert_eq!(extract_locs_from_xml("</loc><loc>a</loc>"), owned(&["a"]));
    assert_eq!(extract_locs_from_xml("no tags"), owned(&[]));
    assert_eq!(extract_locs_from_xml(""), owned(&[]));
}

#[test]
fn what_a_sitemap_lists_is_read_back() {
    let urls = [A, B, C, NEWS];
    assert_eq!(extract_locs_from_xml(&sitemap(&urls)), owned(&urls));
}

#[test]
fn likely_sitemaps_come_first() {
    let urls = owned(&["/news.xml", "/page-1.xml", "/tags.xml", "/course.xml"]);
    assert_eq!(
        order_sitemaps(&urls),
        owned(&["/page-1.xml", "/course.xml", "/news.xml", "/tags.xml"])
    );
}

#[test]
fn sitemap_walk_collects_each_course_once() {
    assert_eq!(SITEMAP_INDEX, "https://www.coventry.ac.uk/sitemap_index.xml");
    let index = sitemap(&["https://x/posts.xml", "https://x/page.xml"]);
    let mut walk = SitemapWalk::start(&index, 5);
    assert_eq!(walk.children(), owned(&["https://x/page.xml", "https://x/posts.xml"]));
    assert!(!walk.is_full());
    walk.visit(&sitemap(&[B, A, NEWS, A_TERM, A_NEXT]));
    assert!(!walk.is_full());
    walk.visit(&sitemap(&[A, C]));
    assert_eq!(walk.finish(), owned(&[A_TERM, B, C]));
}

#[test]
fn sitemap_walk_stops_at_the_limit() {
    let mut walk = SitemapWalk::start("", 2);
    walk.visit(&sitemap(&[B, A, C]));
    assert!(walk.is_full());
    assert_eq!(walk.finish(), owned(&[A, B]));
}

#[test]
fn sitemap_walk_finds_one_course_for_a_limit_of_none() {
    let mut walk = SitemapWalk::start("", 0);
    assert!(!walk.is_full());
    walk.visit(&sitemap(&[B, A, C]));
    assert!(walk.is_full());
    assert_eq!(walk.finish(), owned(&[B]));
}

#[test]
fn index_that_lists_courses_itself() {
    let index = sitemap(&[NEWS, C, A, A_TERM, B]);
    let walk = SitemapWalk::start(&index, 2);
    assert_eq!(walk.finish(), owned(&[A, C]));
    let mut empty = SitemapWalk::start(&index, 9);
    empty.visit(&sitemap(&[NEWS]));
    assert_eq!(empty.finish(), owned(&[A, B, C]));
}

#[test]
fn table_keeps_the_first_url_of_a_course() {
    let mut table = SlugTable::new();
    assert_eq!(table.len(), 0);
    table.take_all(&owned(&[A, A_TERM, NEWS]), 9, false);
    assert_eq!(table.len(), 1);
    assert_eq!(table.into_sorted(), owned(&[A]));
}

#[test]
fn table_prefers_the_first_url_that_names_a_year() {
    let mut table = SlugTable::new();
    table.take_all(&owned(&[A, A_NEXT, A_TERM]), 9, true);
    assert_eq!(table.into_sorted(), owned(&[A_NEXT]));
}

#[test]
fn table_is_cut_before_it_is_sorted() {
    let mut table = SlugTable::new();
    table.take_all(&owned(&[C, B, A]), 9, false);
    assert_eq!(table.into_sorted_first(2), owned(&[B, C]));
}

#[test]
fn links_of_a_listing_page() {
    let html = "<html><body>\
        <a href='/course-structure/pg/bl/accounting-msc/'>one</a>\
        <a href=' /courses/research/chemistry/ '>two</a>\
        <a href='/courses/undergraduate/'>index</a>\
        <a href='/course-structure/pg/bl/accounting-msc/'>again</a>\
        <a href='https://other.org/course-structure/pg/bl/x/'>other</a>\
        <a>none</a></body></html>";
    assert_eq!(extract_course_links_from_html(html), owned(&[A, C]));
    assert_eq!(extract_course_links_from_html(""), owned(&[]));
}

#[test]
fn links_are_found_in_any_case() {
    assert_eq!(
        extract_course_links_from_html("<a href='/COURSE-STRUCTURE/PG/BL/X-MSC/'>x</a>"),
        owned(&["https://www.coventry.ac.uk/COURSE-STRUCTURE/PG/BL/X-MSC/"])
    );
    assert_eq!(
        extract_course_links_from_html("<a href='/Courses/Undergraduate/Law'>x</a>"),
        owned(&["https://www.coventry.ac.uk/Courses/Undergraduate/Law"])
    );
}

#[test]
fn links_of_a_saved_page() {
    let link = |href: &str| Element {
        text: vec![],
        href: Some(href.to_string()),
        content: None,
        next_text: None,
    };
    let page = SavedPage {
        selections: vec![
            Selection {
                selector: "a[href]".to_string(),
                elements: vec![
                    link(B),
                    link("/courses/research/"),
                    link(A),
                    link("/courses/research/chemistry/"),
                    link(B),
                ],
            },
            Selection { selector: "a".to_string(), elements: vec![link(A_TERM)] },
        ],
        root: vec![],
    };
    assert_eq!(page_course_links(&page), owned(&[B, A, C]));
}

#[test]
fn listing_walk_collects_each_course_once() {
    assert_eq!(listing_pages().len(), 3);
    assert_eq!(listing_pages()[2], "https://www.coventry.ac.uk/study-at-coventry/az-course-list/");
    let mut walk = ListingWalk::start(2);
    walk.visit(&format!("<a href='{}'>a</a><a href='{}'>b</a>", A_TERM, A));
    assert!(!walk.has_enough());
    walk.visit(&format!("<a href='{}'>a</a><a href='{}'>b</a>", A, B));
    assert!(walk.has_enough());
    assert_eq!(walk.finish(), owned(&[A_TERM, B]));
}

#[test]
fn listing_walk_takes_course_links_only() {
    let mut walk = ListingWalk::start(3);
    walk.visit_links(&owned(&[NEWS, C, B]));
    assert!(!walk.has_enough());
    assert_eq!(walk.finish(), owned(&[B, C]));
}

#[test]
fn listing_walk_gives_nothing_for_a_limit_of_none() {
    let mut walk = ListingWalk::start(0);
    assert!(walk.has_enough());
    walk.visit_links(&owned(&[A, B]));
    assert_eq!(walk.finish(), owned(&[]));
}

#[test]
fn nothing_is_collected_that_was_not_listed() {
    let listed = [B, A, NEWS, A_TERM, C];
    let mut walk = SitemapWalk::start(&sitemap(&[NEWS]), 9);
    walk.visit(&sitemap(&listed));
    for url in walk.finish() {
        assert!(listed.contains(&url.as_str()));
    }
    let mut walk = ListingWalk::start(9);
    walk.visit(&format!("<a href='{}'>a</a><a href='/courses/research/chemistry/'>c</a>", A));
    for url in walk.finish() {
        assert!([A, C].contains(&url.as_str()));
    }
}
