use book_teacher::chapter::{Chapter, ChapterNumber, ChapterPlan};
use book_teacher::message::ToolInvocation;
use book_teacher::tools::{
    Book, BookJumpTool, BookLocation, GetChapterTool, Library, ToolRegistry,
};

fn chapter(name: &str, number: Vec<i64>, content: &str) -> Chapter {
    Chapter {
        name: name.to_string(),
        number: ChapterNumber(number),
        path: None,
        content: content.to_string(),
        chapter_plan: ChapterPlan {
            plan: "plan".to_string(),
            summary: "summary".to_string(),
        },
    }
}

fn small_library() -> Library {
    Library {
        books: vec![(
            1,
            Book {
                chapters: vec![
                    chapter("One", vec![1], "first text"),
                    chapter("Deep", vec![1, 2], "nested text"),
                ],
            },
        )],
    }
}

#[test]
fn t() {
    let library = Library { books: Vec::new() };
    let tool = BookJumpTool::new(1, library);
    println!("{:#?}", tool);
}

#[test]
fn get_chapter_renders_content_and_plan() {
    let tool = GetChapterTool::new(1, small_library());
    let r = tool.call(&ChapterNumber(vec![1, 2])).unwrap();
    assert_eq!(r, "1.2. Deep\nnested text\nplan\nsummary");
}

#[test]
fn get_chapter_reports_missing_chapter_and_book() {
    let tool = GetChapterTool::new(1, small_library());
    assert_eq!(
        tool.call(&ChapterNumber(vec![9])),
        Err("Chapter not found: 9.".to_string())
    );
    let tool = GetChapterTool::new(7, small_library());
    assert_eq!(
        tool.call(&ChapterNumber(vec![1])),
        Err("Book not found: 7".to_string())
    );
}

#[test]
fn book_location_parses_optional_sector() {
    let loc = BookLocation::parse("1.2.#Exercises").unwrap();
    assert_eq!(loc.chapter_number, ChapterNumber(vec![1, 2]));
    assert_eq!(loc.sector_title, Some("Exercises".to_string()));
    let loc = BookLocation::parse("1.2.").unwrap();
    assert_eq!(loc.sector_title, None);
    assert!(BookLocation::parse("x#y").is_err());
}

#[test]
fn book_jump_describes_the_jump() {
    let tool = BookJumpTool::new(1, small_library());
    let loc = BookLocation::parse("1.#Intro").unwrap();
    assert_eq!(tool.call(&loc).unwrap(), "Jumped to 1. One#Intro");
    let loc = BookLocation::parse("1.").unwrap();
    assert_eq!(tool.call(&loc).unwrap(), "Jumped to 1. One");
}

fn invocation(id: &str, name: &str, arguments: &str) -> ToolInvocation {
    ToolInvocation {
        id: id.to_string(),
        name: name.to_string(),
        arguments: arguments.to_string(),
    }
}

#[test]
fn unknown_tool_yields_error_result_not_abort() {
    let registry = ToolRegistry::new();
    let results = registry.call(&vec![invocation("c1", "GetChapterContent", "1.2.")]);
    assert_eq!(results.len(), 1);
    assert_eq!(results[0].tool_call_id, Some("c1".to_string()));
    assert_eq!(
        results[0].content,
        Some("Unknown tool: GetChapterContent".to_string())
    );
}

#[test]
fn one_failing_invocation_does_not_stop_the_batch() {
    let mut registry = ToolRegistry::new();
    let tool = GetChapterTool::new(1, small_library());
    registry.add_tool(book_teacher::tools::RegisteredTool {
        definition: book_teacher::tools::ToolDefinition {
            name: "GetChapterContent".to_string(),
            description: "query".to_string(),
            parameters: "chapter number".to_string(),
        },
        backend: book_teacher::tools::ToolBackend::GetChapter(tool),
    });
    let results = registry.call(&vec![
        invocation("c1", "GetChapterContent", "not a number"),
        invocation("c2", "GetChapterContent", "1."),
    ]);
    assert_eq!(results.len(), 2);
    assert_eq!(
        results[0].content,
        Some("Invalid arguments: not a number".to_string())
    );
    assert_eq!(
        results[1].content,
        Some("1. One\nfirst text\nplan\nsummary".to_string())
    );
}
