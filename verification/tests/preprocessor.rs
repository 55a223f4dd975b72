use linebreaks::book::Book;
use linebreaks::book::BookNode;
use linebreaks::book::Chapter;
use linebreaks::preprocessor::LineBreaks;
use linebreaks::preprocessor::Policy;
use linebreaks::replacer::HTML_BREAK;

fn chapter_one() -> Chapter {
    Chapter {
        name: String::from("Chapter 1"),
        content: String::from("# Chapter 1\n{{---}}"),
        number: Some(vec![1]),
        path: Some(String::from("chapter_1.md")),
        sub_items: Vec::new(),
    }
}

fn single_chapter_book() -> Book {
    Book { sections: vec![BookNode::Chapter(chapter_one())] }
}

fn the_chapter(book: &Book) -> &Chapter {
    assert_eq!(1, book.sections.len());
    match &book.sections[0] {
        BookNode::Chapter(c) => c,
        _ => panic!("expected a chapter"),
    }
}

#[test]
fn linebreaks_preprocessor_run_html() {
    let result = LineBreaks::new().run("html", single_chapter_book());
    let chapter = the_chapter(&result);
    assert_eq!(
        format!("# Chapter 1\n{}", HTML_BREAK),
        chapter.content
    );
    assert_eq!("Chapter 1", chapter.name);
    assert_eq!(Some(vec![1]), chapter.number);
    assert_eq!(Some(String::from("chapter_1.md")), chapter.path);
    assert_eq!(0, chapter.sub_items.len());
}

#[test]
fn linebreaks_preprocessor_run_other() {
    let result = LineBreaks::new().run("other", single_chapter_book());
    let chapter = the_chapter(&result);
    assert_eq!("# Chapter 1\n", chapter.content);
    assert_eq!("Chapter 1", chapter.name);
    assert_eq!(Some(vec![1]), chapter.number);
    assert_eq!(Some(String::from("chapter_1.md")), chapter.path);
    assert_eq!(0, chapter.sub_items.len());
}

#[test]
fn run_pdf_strips_markers_too() {
    let result = LineBreaks::new().run("pdf", single_chapter_book());
    assert_eq!("# Chapter 1\n", the_chapter(&result).content);
}

#[test]
fn run_reaches_nested_sub_chapters() {
    let nested = Chapter {
        name: String::from("Nested"),
        content: String::from("{{---}}\nbody"),
        number: Some(vec![1, 1]),
        path: None,
        sub_items: Vec::new(),
    };
    let top = Chapter {
        name: String::from("Top"),
        content: String::from("intro\n{{---}}"),
        number: Some(vec![1]),
        path: None,
        sub_items: vec![BookNode::Chapter(nested)],
    };
    let book = Book {
        sections: vec![
            BookNode::PartTitle(String::from("Part I")),
            BookNode::Chapter(top),
            BookNode::Separator,
        ],
    };
    let result = LineBreaks::new().run("html", book);
    assert_eq!(3, result.sections.len());
    match &result.sections[0] {
        BookNode::PartTitle(t) => assert_eq!("Part I", t),
        _ => panic!("expected a part title"),
    }
    let top = match &result.sections[1] {
        BookNode::Chapter(c) => c,
        _ => panic!("expected a chapter"),
    };
    assert_eq!(format!("intro\n{}", HTML_BREAK), top.content);
    let nested = match &top.sub_items[0] {
        BookNode::Chapter(c) => c,
        _ => panic!("expected a nested chapter"),
    };
    assert_eq!(format!("{}\nbody", HTML_BREAK), nested.content);
    assert_eq!("Nested", nested.name);
    assert!(matches!(&result.sections[2], BookNode::Separator));
}

#[test]
fn policy_is_selected_by_target_format() {
    assert_eq!(Policy::RenderAsHtml, Policy::for_renderer("html"));
    assert_eq!(Policy::StripOnly, Policy::for_renderer("other"));
    assert_eq!(Policy::StripOnly, Policy::for_renderer("pdf"));
    assert_eq!(Policy::StripOnly, Policy::for_renderer("HTML"));
    assert_eq!(Policy::StripOnly, Policy::for_renderer(""));
}

#[test]
fn policy_replacement_strings() {
    assert_eq!(HTML_BREAK, Policy::RenderAsHtml.replacement());
    assert_eq!("", Policy::StripOnly.replacement());
}

#[test]
fn preprocessor_name_and_support() {
    let pre = LineBreaks::new();
    assert_eq!("linebreaks-preprocessor", pre.name());
    assert!(pre.supports_renderer("html"));
    assert!(pre.supports_renderer("anything-else"));
}
