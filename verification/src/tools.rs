//! The tool registry and the two book tools: chapter lookup and book
//! navigation. Tools are resolved by name; an unknown name or a failing
//! tool yields an error result, never an orchestrator failure.
use vstd::prelude::*;

use crate::chapter::{
    i64_text, spec_chapter_render, spec_i64_text, spec_number_text, spec_number_value,
    spec_valid_number, Chapter, ChapterModel, ChapterNumber, ChapterNumberError,
};
use crate::message::{
    invocations_model, messages_model, InvocationModel, Message, MessageModel, Role,
    ToolInvocation,
};

verus! {

/// A book as the tools see it: its chapters with generated plans.
#[derive(Debug)]
pub struct Book {
    pub chapters: Vec<Chapter>,
}

impl View for Book {
    type V = Seq<ChapterModel>;

    open spec fn view(&self) -> Seq<ChapterModel> {
        self.chapters@.map_values(|c: Chapter| c@)
    }
}

/// The in-memory library: books keyed by their id.
#[derive(Debug)]
pub struct Library {
    pub books: Vec<(i64, Book)>,
}

impl View for Library {
    type V = Seq<(i64, Seq<ChapterModel>)>;

    open spec fn view(&self) -> Seq<(i64, Seq<ChapterModel>)> {
        self.books@.map_values(|p: (i64, Book)| (p.0, p.1@))
    }
}

/// The first chapter carrying the given number, if any.
pub open spec fn spec_find_chapter(cs: Seq<ChapterModel>, n: Seq<i64>) -> Option<ChapterModel>
    decreases cs.len(),
{
    if cs.len() == 0 {
        None
    } else if cs[0].number == n {
        Some(cs[0])
    } else {
        spec_find_chapter(cs.drop_first(), n)
    }
}

/// The first book carrying the given id, if any.
pub open spec fn spec_find_book(bs: Seq<(i64, Seq<ChapterModel>)>, id: i64) -> Option<
    Seq<ChapterModel>,
>
    decreases bs.len(),
{
    if bs.len() == 0 {
        None
    } else if bs[0].0 == id {
        Some(bs[0].1)
    } else {
        spec_find_book(bs.drop_first(), id)
    }
}

impl Book {
    /// Looks a chapter up by its number.
    pub fn get_chapter(&self, n: &ChapterNumber) -> (r: Option<&Chapter>)
        ensures
            match r {
                Some(c) => spec_find_chapter(self@, n@) == Some(c@),
                None => spec_find_chapter(self@, n@) is None,
            },
    {
        proof {
            assert(self@.subrange(0, self@.len() as int) =~= self@);
        }
        let mut i: usize = 0;
        while i < self.chapters.len()
            invariant
                i <= self.chapters.len(),
                spec_find_chapter(self@, n@) == spec_find_chapter(
                    self@.subrange(i as int, self@.len() as int),
                    n@,
                ),
            decreases self.chapters.len() - i,
        {
            let ghost rest = self@.subrange(i as int, self@.len() as int);
            proof {
                assert(rest[0] == self@[i as int]);
                assert(self@[i as int] == self.chapters@[i as int]@);
                assert(rest.drop_first() =~= self@.subrange(i + 1, self@.len() as int));
            }
            if self.chapters[i].number.same_as(n) {
                return Some(&self.chapters[i]);
            }
            i = i + 1;
        }
        None
    }
}

impl Library {
    /// Looks a book up by its id.
    pub fn get_book(&self, id: i64) -> (r: Option<&Book>)
        ensures
            match r {
                Some(b) => spec_find_book(self@, id) == Some(b@),
                None => spec_find_book(self@, id) is None,
            },
    {
        proof {
            assert(self@.subrange(0, self@.len() as int) =~= self@);
        }
        let mut i: usize = 0;
        while i < self.books.len()
            invariant
                i <= self.books.len(),
                spec_find_book(self@, id) == spec_find_book(
                    self@.subrange(i as int, self@.len() as int),
                    id,
                ),
            decreases self.books.len() - i,
        {
            let ghost rest = self@.subrange(i as int, self@.len() as int);
            proof {
                assert(rest[0] == self@[i as int]);
                assert(self@[i as int] == (self.books@[i as int].0, self.books@[i as int].1@));
                assert(rest.drop_first() =~= self@.subrange(i + 1, self@.len() as int));
            }
            if self.books[i].0 == id {
                return Some(&self.books[i].1);
            }
            i = i + 1;
        }
        None
    }

    /// An exact copy.
    pub fn duplicate(&self) -> (r: Library)
        ensures
            r@ == self@,
    {
        let mut books: Vec<(i64, Book)> = Vec::new();
        let mut i: usize = 0;
        while i < self.books.len()
            invariant
                i <= self.books.len(),
                books@.len() == i,
                forall|j: int|
                    0 <= j < i ==> #[trigger] books@[j].0 == self.books@[j].0 && books@[j].1@
                        == self.books@[j].1@,
            decreases self.books.len() - i,
        {
            let entry = &self.books[i];
            let mut chapters: Vec<Chapter> = Vec::new();
            let mut j: usize = 0;
            while j < entry.1.chapters.len()
                invariant
                    j <= entry.1.chapters.len(),
                    chapters@.len() == j,
                    forall|q: int| 0 <= q < j ==> chapters@[q]@ == entry.1.chapters@[q]@,
                decreases entry.1.chapters.len() - j,
            {
                chapters.push(entry.1.chapters[j].duplicate());
                j = j + 1;
            }
            let book = Book { chapters };
            proof {
                assert(book@ =~= entry.1@);
            }
            books.push((entry.0, book));
            i = i + 1;
        }
        let r = Library { books };
        proof {
            assert(r@ =~= self@);
        }
        r
    }
}

/// Result of looking a chapter up for the given book and number.
pub open spec fn spec_get_chapter_outcome(
    lib: Seq<(i64, Seq<ChapterModel>)>,
    book_id: i64,
    n: Seq<i64>,
) -> Result<Seq<char>, Seq<char>> {
    match spec_find_book(lib, book_id) {
        None => Err("Book not found: "@ + spec_i64_text(book_id as int)),
        Some(b) => match spec_find_chapter(b, n) {
            None => Err("Chapter not found: "@ + spec_number_text(n)),
            Some(c) => Ok(spec_chapter_render(c)),
        },
    }
}

/// Queries the content of a chapter of one book.
#[derive(Debug)]
pub struct GetChapterTool {
    pub book_id: i64,
    pub library: Library,
}

impl GetChapterTool {
    pub fn new(book_id: i64, library: Library) -> (r: GetChapterTool)
        ensures
            r.book_id == book_id,
            r.library@ == library@,
    {
        GetChapterTool { book_id, library }
    }

    /// Resolves the chapter and renders it, or says what was missing.
    pub fn call(&self, args: &ChapterNumber) -> (r: Result<String, String>)
        ensures
            match r {
                Ok(s) => spec_get_chapter_outcome(self.library@, self.book_id, args@) == Ok::<
                    Seq<char>,
                    Seq<char>,
                >(s@),
                Err(e) => spec_get_chapter_outcome(self.library@, self.book_id, args@) == Err::<
                    Seq<char>,
                    Seq<char>,
                >(e@),
            },
    {
        match self.library.get_book(self.book_id) {
            None => {
                let mut e = String::from_str("Book not found: ");
                let num = i64_text(self.book_id);
                e.append(num.as_str());
                Err(e)
            },
            Some(book) => {
                match book.get_chapter(args) {
                    None => {
                        let mut e = String::from_str("Chapter not found: ");
                        let num = args.to_text();
                        e.append(num.as_str());
                        Err(e)
                    },
                    Some(c) => Ok(c.render()),
                }
            },
        }
    }
}

/// A place in the book: a chapter, and possibly a section title inside it.
/// Its text form is the chapter number, optionally followed by `#` and the
/// section title.
#[derive(Debug)]
pub struct BookLocation {
    pub chapter_number: ChapterNumber,
    pub sector_title: Option<String>,
}

/// Length of the prefix of `s` before the first `'#'` (all of `s` if none).
pub open spec fn hash_len(s: Seq<char>) -> nat
    decreases s.len(),
{
    if s.len() == 0 {
        0
    } else if s[0] == '#' {
        0
    } else {
        1 + hash_len(s.drop_first())
    }
}

proof fn lemma_hash_len_is(s: Seq<char>, m: int)
    requires
        0 <= m <= s.len(),
        forall|j: int| 0 <= j < m ==> s[j] != '#',
        m < s.len() ==> s[m] == '#',
    ensures
        hash_len(s) == m,
    decreases s.len(),
{
    if s.len() > 0 && m > 0 {
        assert(s[0] != '#');
        assert(forall|j: int| 0 <= j < m - 1 ==> #[trigger] s.drop_first()[j] == s[j + 1]);
        lemma_hash_len_is(s.drop_first(), m - 1);
    }
}

/// What a location text denotes: the chapter number before the first `#`,
/// and the section title after it, if one is there.
pub open spec fn spec_parse_location(s: Seq<char>) -> Option<(Seq<i64>, Option<Seq<char>>)> {
    let k = hash_len(s) as int;
    if !spec_valid_number(s.subrange(0, k)) {
        None
    } else {
        Some(
            (
                spec_number_value(s.subrange(0, k)),
                if k == s.len() {
                    None
                } else {
                    Some(s.subrange(k + 1, s.len() as int))
                },
            ),
        )
    }
}

pub open spec fn location_model(loc: BookLocation) -> (Seq<i64>, Option<Seq<char>>) {
    (
        loc.chapter_number@,
        match loc.sector_title {
            Some(t) => Some(t@),
            None => None,
        },
    )
}

impl BookLocation {
    /// Parses a location text such as "1.2." or "1.2.#Exercises".
    pub fn parse(s: &str) -> (r: Result<BookLocation, ChapterNumberError>)
        ensures
            r is Ok <==> spec_parse_location(s@) is Some,
            r matches Ok(loc) ==> spec_parse_location(s@) == Some(location_model(loc)),
    {
        let n = s.unicode_len();
        let mut k: usize = 0;
        while k < n && s.get_char(k) != '#'
            invariant
                k <= n,
                n == s@.len(),
                forall|j: int| 0 <= j < k ==> s@[j] != '#',
            decreases n - k,
        {
            k = k + 1;
        }
        proof {
            lemma_hash_len_is(s@, k as int);
        }
        let number_text = s.substring_char(0, k);
        match ChapterNumber::from_str(number_text) {
            Err(e) => Err(e),
            Ok(chapter_number) => {
                let sector_title = if k < n {
                    Some(String::from_str(s.substring_char(k + 1, n)))
                } else {
                    None
                };
                Ok(BookLocation { chapter_number, sector_title })
            },
        }
    }
}

/// Result of a jump to the given location of one book.
pub open spec fn spec_jump_outcome(
    lib: Seq<(i64, Seq<ChapterModel>)>,
    book_id: i64,
    n: Seq<i64>,
    sector: Option<Seq<char>>,
) -> Result<Seq<char>, Seq<char>> {
    match spec_find_book(lib, book_id) {
        None => Err("Book not found: "@ + spec_i64_text(book_id as int)),
        Some(b) => match spec_find_chapter(b, n) {
            None => Err("Chapter not found: "@ + spec_number_text(n)),
            Some(c) => Ok(
                "Jumped to "@ + spec_number_text(n) + " "@ + c.name + (match sector {
                    Some(t) => "#"@ + t,
                    None => Seq::empty(),
                }),
            ),
        },
    }
}

/// Directs the student to a chapter or section of one book.
#[derive(Debug)]
pub struct BookJumpTool {
    pub book_id: i64,
    pub library: Library,
}

impl BookJumpTool {
    pub fn new(book_id: i64, library: Library) -> (r: BookJumpTool)
        ensures
            r.book_id == book_id,
            r.library@ == library@,
    {
        BookJumpTool { book_id, library }
    }

    /// Resolves the location and describes the jump, or says what was
    /// missing.
    pub fn call(&self, args: &BookLocation) -> (r: Result<String, String>)
        ensures
            match r {
                Ok(s) => spec_jump_outcome(
                    self.library@,
                    self.book_id,
                    args.chapter_number@,
                    location_model(*args).1,
                ) == Ok::<Seq<char>, Seq<char>>(s@),
                Err(e) => spec_jump_outcome(
                    self.library@,
                    self.book_id,
                    args.chapter_number@,
                    location_model(*args).1,
                ) == Err::<Seq<char>, Seq<char>>(e@),
            },
    {
        match self.library.get_book(self.book_id) {
            None => {
                let mut e = String::from_str("Book not found: ");
                let num = i64_text(self.book_id);
                e.append(num.as_str());
                Err(e)
            },
            Some(book) => {
                match book.get_chapter(&args.chapter_number) {
                    None => {
                        let mut e = String::from_str("Chapter not found: ");
                        let num = args.chapter_number.to_text();
                        e.append(num.as_str());
                        Err(e)
                    },
                    Some(c) => {
                        let mut out = String::from_str("Jumped to ");
                        let num = args.chapter_number.to_text();
                        out.append(num.as_str());
                        out.append(" ");
                        out.append(c.name.as_str());
                        match &args.sector_title {
                            Some(t) => {
                                out.append("#");
                                out.append(t.as_str());
                            },
                            None => {},
                        }
                        proof {
                            assert(out@ =~= "Jumped to "@ + spec_number_text(
                                args.chapter_number@,
                            ) + " "@ + c@.name + (match location_model(*args).1 {
                                Some(t) => "#"@ + t,
                                None => Seq::<char>::empty(),
                            }));
                        }
                        Ok(out)
                    },
                }
            },
        }
    }
}

/// What a registered tool tells the provider about itself: its name, what
/// it does, and the shape of its argument text.
#[derive(Debug)]
pub struct ToolDefinition {
    pub name: String,
    pub description: String,
    pub parameters: String,
}

#[verifier::ext_equal]
pub ghost struct DefinitionModel {
    pub name: Seq<char>,
    pub description: Seq<char>,
    pub parameters: Seq<char>,
}

impl View for ToolDefinition {
    type V = DefinitionModel;

    open spec fn view(&self) -> DefinitionModel {
        DefinitionModel {
            name: self.name@,
            description: self.description@,
            parameters: self.parameters@,
        }
    }
}

/// The execution capability behind a registered tool.
#[derive(Debug)]
pub enum ToolBackend {
    GetChapter(GetChapterTool),
    BookJump(BookJumpTool),
}

/// One entry of the registry: a definition and the capability it names.
#[derive(Debug)]
pub struct RegisteredTool {
    pub definition: ToolDefinition,
    pub backend: ToolBackend,
}

/// Maps tool names to capabilities; executes whole invocation batches,
/// turning every per-invocation failure into an error result.
#[derive(Debug)]
pub struct ToolRegistry {
    pub tools: Vec<RegisteredTool>,
}

/// The first registered tool with the given name, if any.
pub open spec fn spec_find_tool(ts: Seq<RegisteredTool>, name: Seq<char>) -> Option<
    RegisteredTool,
>
    decreases ts.len(),
{
    if ts.len() == 0 {
        None
    } else if ts[0].definition.name@ == name {
        Some(ts[0])
    } else {
        spec_find_tool(ts.drop_first(), name)
    }
}

/// The content a backend produces for the given argument text: the tool's
/// answer, or the error description of whatever failed.
pub open spec fn spec_backend_content(b: ToolBackend, args: Seq<char>) -> Seq<char> {
    match b {
        ToolBackend::GetChapter(t) => {
            if spec_valid_number(args) {
                match spec_get_chapter_outcome(t.library@, t.book_id, spec_number_value(args)) {
                    Ok(s) => s,
                    Err(e) => e,
                }
            } else {
                "Invalid arguments: "@ + args
            }
        },
        ToolBackend::BookJump(t) => {
            match spec_parse_location(args) {
                Some((n, sector)) => match spec_jump_outcome(t.library@, t.book_id, n, sector) {
                    Ok(s) => s,
                    Err(e) => e,
                },
                None => "Invalid arguments: "@ + args,
            }
        },
    }
}

/// The content of the result message for one invocation.
pub open spec fn spec_tool_content(ts: Seq<RegisteredTool>, inv: InvocationModel) -> Seq<char> {
    match spec_find_tool(ts, inv.name) {
        None => "Unknown tool: "@ + inv.name,
        Some(rt) => spec_backend_content(rt.backend, inv.arguments),
    }
}

/// The tool-role message answering one invocation.
pub open spec fn spec_tool_result(ts: Seq<RegisteredTool>, inv: InvocationModel) -> MessageModel {
    MessageModel {
        role: Role::Tool,
        content: Some(spec_tool_content(ts, inv)),
        refusal: None,
        tool_calls: Seq::empty(),
        tool_call_id: Some(inv.id),
    }
}

impl ToolRegistry {
    /// An empty registry.
    pub fn new() -> (r: ToolRegistry)
        ensures
            r.tools@.len() == 0,
    {
        ToolRegistry { tools: Vec::new() }
    }

    /// Registers one more tool.
    pub fn add_tool(&mut self, t: RegisteredTool)
        ensures
            final(self).tools@ == old(self).tools@ + seq![t],
    {
        self.tools.push(t);
    }

    /// The registered definitions, for the next provider request.
    pub fn get_tools(&self) -> (r: Vec<ToolDefinition>)
        ensures
            r@.map_values(|d: ToolDefinition| d@) == self.tools@.map_values(
                |t: RegisteredTool| t.definition@,
            ),
    {
        let mut r: Vec<ToolDefinition> = Vec::new();
        let mut i: usize = 0;
        while i < self.tools.len()
            invariant
                i <= self.tools.len(),
                r@.len() == i,
                forall|j: int| 0 <= j < i ==> r@[j]@ == #[trigger] self.tools@[j].definition@,
            decreases self.tools.len() - i,
        {
            let d = &self.tools[i].definition;
            r.push(
                ToolDefinition {
                    name: d.name.clone(),
                    description: d.description.clone(),
                    parameters: d.parameters.clone(),
                },
            );
            i = i + 1;
        }
        proof {
            assert(r@.map_values(|d: ToolDefinition| d@) =~= self.tools@.map_values(
                |t: RegisteredTool| t.definition@,
            ));
        }
        r
    }

    /// Runs one invocation: resolves the tool by name, parses the argument
    /// text, executes, and wraps the answer or the failure as a tool-role
    /// message.
    fn dispatch(&self, inv: &ToolInvocation) -> (m: Message)
        ensures
            m@ == spec_tool_result(self.tools@, inv@),
    {
        proof {
            assert(self.tools@.subrange(0, self.tools@.len() as int) =~= self.tools@);
        }
        let mut i: usize = 0;
        while i < self.tools.len()
            invariant
                i <= self.tools.len(),
                spec_find_tool(self.tools@, inv.name@) == spec_find_tool(
                    self.tools@.subrange(i as int, self.tools@.len() as int),
                    inv.name@,
                ),
            decreases self.tools.len() - i,
        {
            let ghost rest = self.tools@.subrange(i as int, self.tools@.len() as int);
            proof {
                assert(rest[0] == self.tools@[i as int]);
                assert(rest.drop_first() =~= self.tools@.subrange(
                    i + 1,
                    self.tools@.len() as int,
                ));
            }
            let rt = &self.tools[i];
            if rt.definition.name == inv.name {
                let content: String = match &rt.backend {
                    ToolBackend::GetChapter(t) => {
                        match ChapterNumber::from_str(inv.arguments.as_str()) {
                            Ok(n) => match t.call(&n) {
                                Ok(s) => s,
                                Err(e) => e,
                            },
                            Err(_) => {
                                let mut e = String::from_str("Invalid arguments: ");
                                e.append(inv.arguments.as_str());
                                e
                            },
                        }
                    },
                    ToolBackend::BookJump(t) => {
                        match BookLocation::parse(inv.arguments.as_str()) {
                            Ok(loc) => match t.call(&loc) {
                                Ok(s) => s,
                                Err(e) => e,
                            },
                            Err(_) => {
                                let mut e = String::from_str("Invalid arguments: ");
                                e.append(inv.arguments.as_str());
                                e
                            },
                        }
                    },
                };
                return Message::tool(inv.id.clone(), content);
            }
            i = i + 1;
        }
        let mut content = String::from_str("Unknown tool: ");
        content.append(inv.name.as_str());
        Message::tool(inv.id.clone(), content)
    }

    /// Answers a whole batch: one tool-role message per invocation, in
    /// invocation order; a failure of one invocation never stops another.
    pub fn call(&self, invocations: &Vec<ToolInvocation>) -> (r: Vec<Message>)
        ensures
            messages_model(r@) == invocations_model(invocations@).map_values(
                |inv: InvocationModel| spec_tool_result(self.tools@, inv),
            ),
    {
        let mut r: Vec<Message> = Vec::new();
        let mut i: usize = 0;
        while i < invocations.len()
            invariant
                i <= invocations.len(),
                r@.len() == i,
                forall|j: int|
                    0 <= j < i ==> r@[j]@ == spec_tool_result(
                        self.tools@,
                        #[trigger] invocations@[j]@,
                    ),
            decreases invocations.len() - i,
        {
            r.push(self.dispatch(&invocations[i]));
            i = i + 1;
        }
        proof {
            assert(messages_model(r@) =~= invocations_model(invocations@).map_values(
                |inv: InvocationModel| spec_tool_result(self.tools@, inv),
            ));
        }
        r
    }
}

} // verus!
