use book_teacher::chapter::{
    Chapter, ChapterNumber, ChapterNumberError, ChapterOrdering, ChapterPlan, ChapterRaw,
};

fn sorted_insert(set: &mut Vec<ChapterNumber>, n: ChapterNumber) {
    let mut i = 0;
    while i < set.len() {
        match n.cmp_to(&set[i]) {
            ChapterOrdering::Same => return,
            ChapterOrdering::Before => break,
            ChapterOrdering::After => i += 1,
        }
    }
    set.insert(i, n);
}

#[test]
fn chapter_number_cmp() {
    let mut set: Vec<ChapterNumber> = Vec::new();
    sorted_insert(&mut set, ChapterNumber::from_str("3.1.4").unwrap());
    sorted_insert(&mut set, ChapterNumber::from_str("").unwrap());
    sorted_insert(&mut set, ChapterNumber::from_str("2.3.2").unwrap());
    sorted_insert(&mut set, ChapterNumber::from_str("-1.3.8.").unwrap());
    sorted_insert(&mut set, ChapterNumber::from_str("5.4.1").unwrap());
    sorted_insert(&mut set, ChapterNumber::from_str("4.7.6").unwrap());
    println!("{:?}", set);
}

#[test]
fn suffix_chapters_sort_last() {
    let mut set: Vec<ChapterNumber> = Vec::new();
    sorted_insert(&mut set, ChapterNumber::from_str("3.1.4").unwrap());
    sorted_insert(&mut set, ChapterNumber::from_str("").unwrap());
    sorted_insert(&mut set, ChapterNumber::from_str("2.3.2").unwrap());
    sorted_insert(&mut set, ChapterNumber::from_str("-1.3.8.").unwrap());
    sorted_insert(&mut set, ChapterNumber::from_str("5.4.1").unwrap());
    sorted_insert(&mut set, ChapterNumber::from_str("4.7.6").unwrap());
    let expected = vec![
        ChapterNumber(vec![]),
        ChapterNumber(vec![2, 3, 2]),
        ChapterNumber(vec![3, 1, 4]),
        ChapterNumber(vec![4, 7, 6]),
        ChapterNumber(vec![5, 4, 1]),
        ChapterNumber(vec![-1, 3, 8]),
    ];
    assert_eq!(set, expected);
}

#[test]
fn parse_accepts_with_and_without_trailing_dot() {
    assert_eq!(
        ChapterNumber::from_str("3.1.4").unwrap(),
        ChapterNumber(vec![3, 1, 4])
    );
    assert_eq!(
        ChapterNumber::from_str("3.1.4.").unwrap(),
        ChapterNumber(vec![3, 1, 4])
    );
    assert_eq!(ChapterNumber::from_str("").unwrap(), ChapterNumber(vec![]));
    assert_eq!(
        ChapterNumber::from_str("-1.3.8.").unwrap(),
        ChapterNumber(vec![-1, 3, 8])
    );
}

#[test]
fn parse_accepts_plus_signed_components() {
    assert_eq!(
        ChapterNumber::from_str("3.+1").unwrap(),
        ChapterNumber(vec![3, 1])
    );
    assert_eq!(ChapterNumber::from_str("+1").unwrap(), ChapterNumber(vec![1]));
    assert_eq!(ChapterNumber::from_str("+"), Err(ChapterNumberError::Invalid));
    assert_eq!(
        ChapterNumber::from_str("+9223372036854775807").unwrap(),
        ChapterNumber(vec![i64::MAX])
    );
    assert_eq!(
        ChapterNumber::from_str("+9223372036854775808"),
        Err(ChapterNumberError::Invalid)
    );
}

#[test]
fn parse_rejects_bad_text() {
    assert_eq!(ChapterNumber::from_str("."), Err(ChapterNumberError::Invalid));
    assert_eq!(ChapterNumber::from_str("1..2"), Err(ChapterNumberError::Invalid));
    assert_eq!(ChapterNumber::from_str("a.b"), Err(ChapterNumberError::Invalid));
    assert_eq!(ChapterNumber::from_str("-"), Err(ChapterNumberError::Invalid));
    assert_eq!(
        ChapterNumber::from_str("9223372036854775808"),
        Err(ChapterNumberError::Invalid)
    );
    assert_eq!(
        ChapterNumber::from_str("-9223372036854775808").unwrap(),
        ChapterNumber(vec![i64::MIN])
    );
    assert_eq!(
        ChapterNumber::from_str("9223372036854775807").unwrap(),
        ChapterNumber(vec![i64::MAX])
    );
}

#[test]
fn number_text_has_one_dot_per_component() {
    assert_eq!(ChapterNumber(vec![1, 2, 3]).to_text(), "1.2.3.");
    assert_eq!(ChapterNumber(vec![-1, 30]).to_text(), "-1.30.");
    assert_eq!(ChapterNumber(vec![]).to_text(), "");
    assert_eq!(ChapterNumber(vec![0]).to_text(), "0.");
}

#[test]
fn cmp_places_suffix_after_regular() {
    let suffix = ChapterNumber(vec![-1, 3, 8]);
    let regular = ChapterNumber(vec![5, 4, 1]);
    assert_eq!(regular.cmp_to(&suffix), ChapterOrdering::Before);
    assert_eq!(suffix.cmp_to(&regular), ChapterOrdering::After);
    assert_eq!(suffix.cmp_to(&suffix), ChapterOrdering::Same);
    assert_eq!(
        ChapterNumber(vec![2, 3]).cmp_to(&ChapterNumber(vec![2, 3, 1])),
        ChapterOrdering::Before
    );
}

fn raw(name: &str, number: Vec<i64>, path: Option<&str>, subs: Vec<ChapterRaw>) -> ChapterRaw {
    ChapterRaw {
        name: name.to_string(),
        number: ChapterNumber(number),
        parent_names: Vec::new(),
        path: path.map(|p| p.to_string()),
        content: String::new(),
        sub_chapters: subs,
    }
}

#[test]
fn toc_item_indents_by_depth() {
    let sub = raw("Sub", vec![1, 1], None, Vec::new());
    let ch = raw("Intro", vec![1], Some("ch1.md"), vec![sub]);
    assert_eq!(
        ch.get_toc_item(),
        "1. [Intro](ch1.md)  \n  1.1. [Sub]()  \n"
    );
}

#[test]
fn toc_item_keeps_prefix_and_suffix_flush_left() {
    let prefix = raw("Foreword", vec![0], None, Vec::new());
    assert_eq!(prefix.get_toc_item(), "0. [Foreword]()  \n");
    let suffix = raw("Appendix", vec![-1, 2], None, Vec::new());
    assert_eq!(suffix.get_toc_item(), "-1.2. [Appendix]()  \n");
}

#[test]
fn to_chapter_pairs_content_with_plan() {
    let ch = raw("Intro", vec![1], Some("ch1.md"), Vec::new());
    let plan = ChapterPlan {
        plan: "teach it".to_string(),
        summary: "short".to_string(),
    };
    let c: Chapter = ch.to_chapter(plan);
    assert_eq!(c.name, "Intro");
    assert_eq!(c.number, ChapterNumber(vec![1]));
    assert_eq!(c.path, Some("ch1.md".to_string()));
    assert_eq!(c.chapter_plan.plan, "teach it");
    assert_eq!(c.chapter_plan.summary, "short");
}
