use ifengine::action::Action;
use ifengine::elements::ChoiceVariant;
use ifengine::game::{Game, GameInner};
use ifengine::game_state::{GameState, PageMap};
use ifengine::mask::MaskExt;
use ifengine::page::{PageErased, PageHandle, Response};
use ifengine::page_state::PageState;
use ifengine::tags::GameTags;
use ifengine::view::{Image, Line, Modifier, Span, SpanVariant, View, BOLD, ITALIC};

#[derive(Debug, Clone, Copy, PartialEq)]
struct Pg(u8);

impl PageErased<()> for Pg {
    fn call(&self, _game: &mut Game<(), Pg>) -> Response<Pg> {
        Response::View(View::new("P".to_string()))
    }
}

fn key(page: &str, k: u64) -> (String, u64) {
    (page.to_string(), k)
}

fn stored(state: &GameState, page: &str, k: u64) -> Option<u64> {
    state.page(&page.to_string()).and_then(|m| m.get(k))
}

#[test]
fn set_bit_twice_equals_once() {
    let mut once = GameState::new();
    once.set_bit(key("A", 3), 5);
    let mut twice = GameState::new();
    twice.set_bit(key("A", 3), 5);
    twice.set_bit(key("A", 3), 5);
    assert_eq!(stored(&once, "A", 3), Some(32));
    assert_eq!(stored(&twice, "A", 3), Some(32));
    twice.set_bit(key("A", 3), 0);
    assert_eq!(stored(&twice, "A", 3), Some(33));
    twice.set_bit(key("A", 3), 63);
    assert_eq!(stored(&twice, "A", 3), Some(33 | (1u64 << 63)));
}

#[test]
fn inc_from_absent_counts() {
    let mut state = GameState::new();
    for _ in 0..5 {
        state.inc(&key("B", 1));
    }
    assert_eq!(stored(&state, "B", 1), Some(5));
    assert_eq!(stored(&state, "B", 2), None);
}

#[test]
fn inc_wraps_at_the_top() {
    let mut state = GameState::new();
    state.insert(key("B", 1), u64::MAX);
    state.inc(&key("B", 1));
    assert_eq!(stored(&state, "B", 1), Some(0));
}

#[test]
fn remove_drops_empty_page() {
    let mut state = GameState::new();
    state.insert(key("C", 1), 10);
    state.insert(key("C", 2), 20);
    state.remove(&key("C", 1));
    assert_eq!(stored(&state, "C", 1), None);
    assert_eq!(stored(&state, "C", 2), Some(20));
    state.remove(&key("C", 2));
    assert!(state.page(&"C".to_string()).is_none());
    state.remove(&key("D", 1));
    assert!(state.page(&"D".to_string()).is_none());
}

#[test]
fn get_chapter_creates_empty_page() {
    let mut state = GameState::new();
    assert!(state.get_chapter(&"E".to_string()).is_empty());
    assert!(state.page(&"E".to_string()).is_some());
    state.insert(key("E", 4), 9);
    assert_eq!(state.get_chapter(&"E".to_string()).get(4), Some(9));
}

#[test]
fn handle_action_dispatches() {
    let mut inner = GameInner {
        state: GameState::new(),
        pages: ifengine::game::PageStack::new_with_page(PageHandle::new("A".to_string(), Pg(0))),
        fresh: true,
        iterations: 0,
    };
    inner.handle_action(Action::SetValue(key("A", 1), 42)).unwrap();
    inner.handle_action(Action::Inc(key("A", 1))).unwrap();
    assert_eq!(stored(&inner.state, "A", 1), Some(43));
    inner.handle_action(Action::Reset(key("A", 1))).unwrap();
    assert_eq!(stored(&inner.state, "A", 1), None);
    inner.handle_action(Action::SetBit(key("A", 2), 1)).unwrap();
    assert_eq!(stored(&inner.state, "A", 2), Some(2));
    inner.handle_choice(key("A", 2), 2);
    assert_eq!(stored(&inner.state, "A", 2), Some(6));
    inner.handle_action(Action::Noop).unwrap();

    inner.handle_action(Action::Next(PageHandle::new("mod::B".to_string(), Pg(1)))).unwrap();
    assert_eq!(inner.pages.len(), 2);
    assert_eq!(inner.pages.current().unwrap().id, "");
    // a placeholder is already on top: its id equals the new one, so nothing is pushed
    inner.handle_action(Action::Next(PageHandle::new("mod::C".to_string(), Pg(3)))).unwrap();
    assert_eq!(inner.pages.len(), 2);
    assert_eq!(inner.pages.current().unwrap().widget, Pg(1));
    assert_eq!(inner.handle_action(Action::Back(2)), Err(ifengine::errors::GameError::NoPage));
    inner.handle_action(Action::Back(1)).unwrap();
    assert_eq!(inner.pages.current().unwrap().id, "A");

    inner.handle_action(Action::Tunnel(PageHandle::new("mod::T".to_string(), Pg(2)))).unwrap();
    assert_eq!(inner.pages.len(), 1);
    assert_eq!(inner.pages.current().unwrap().widget, Pg(2));
    inner.handle_action(Action::Exit).unwrap();
    assert_eq!(inner.pages.current().unwrap().id, "A");
    assert_eq!(inner.handle_action(Action::Exit), Err(ifengine::errors::GameError::End));
}

#[test]
fn page_state_reads_and_writes() {
    let mut map = PageMap::new();
    map.insert(1, 0b1010);
    let mut tags = GameTags::new();
    tags.insert("old".to_string());
    let mut ps: PageState<Pg> = PageState::new("page".to_string(), map, tags, true, false);
    assert!(ps.fresh());
    assert_eq!(ps.id(), "page");
    assert_eq!(ps.get(1), Some(10));
    assert_eq!(ps.get_mask_indices(1), vec![1, 3]);
    assert_eq!(ps.get_mask_indices(2), Vec::<usize>::new());
    let mask: [bool; 5] = ps.get_mask(1);
    assert_eq!(mask, [false, true, false, true, false]);
    assert!(mask.any());
    assert!(!mask.all());
    assert!([true, true].all());
    assert!(![false, false].any());
    assert_eq!(ps.get_mask_last(1), Some(1));
    assert_eq!(ps.get_mask_last(2), None);
    ps.insert(2, 0);
    assert_eq!(ps.get_mask_last(2), None);
    assert_eq!(ps.remove_mask_last(1), Some(1));
    assert_eq!(ps.get(1), None);
    assert_eq!(ps.remove(2), Some(0));
    assert!(ps.tag("seen"));
    assert!(!ps.tag("old"));
    assert!(ps.untag("old"));
    assert!(!ps.untag("old"));
    ps.push(ifengine::view::Object::Break);
    let (response, map, tags) = ps.into_parts();
    match response {
        Response::View(v) => {
            assert_eq!(v.pageid, "page");
            assert_eq!(v.inner.len(), 1);
            assert_eq!(v.tags, vec!["seen".to_string(), "old".to_string()]);
        }
        _ => panic!("expected a view"),
    }
    assert!(map.is_empty());
    assert!(tags.contains("seen"));
    assert!(!tags.contains("old"));
    assert_eq!(tags.len(), 1);
}

#[test]
fn rand_avoids_excluded() {
    let mut ps: PageState<Pg> = PageState::new("r".to_string(), PageMap::new(), GameTags::new(), false, true);
    for _ in 0..20 {
        let r = ps.rand(4, &vec![0, 2, 3]);
        assert_eq!(r, 1);
    }
    ps.seed = Some(7);
    let a = ps.rand(10, &vec![5]);
    let b = ps.rand(10, &vec![5]);
    assert_eq!(a, b);
    assert!(a < 10 && a != 5);
}

#[test]
fn span_and_line_builders() {
    let s: Span<Pg> = Span::new("go".to_string()).as_link().with_action(Action::Exit);
    assert_eq!(s.variant, SpanVariant::Link);
    assert!(matches!(s.action, Some(Action::Exit)));
    let hidden = s.clone().hide_if(true);
    assert_eq!(hidden.content, "");
    assert!(hidden.action.is_none());
    let kept = s.hide_if(false);
    assert_eq!(kept.content, "go");
    let t: Span<Pg> = Span::new("a".to_string()).with_text("b".to_string());
    assert_eq!(t.content, "b");
    let l: Span<Pg> = Span::from_lingual("it's...".to_string());
    assert_eq!(l.content, "it\u{2019}s\u{2026}");
    let line: Line<Pg> = Line::from_lingual(Line::from_iter(vec!["a--b".to_string(), "\"q\"".to_string()]));
    assert_eq!(line.spans[0].content, "a\u{2014}b");
    assert_eq!(line.spans[1].content, "\u{201C}q\u{201D}");
    assert_eq!(line.content(), "a\u{2014}b\u{201C}q\u{201D}");
    let spans: Line<Pg> = Line::from_spans(vec![Span::new("x".to_string())]);
    assert_eq!(spans.content(), "x");
    assert!(Line::<Pg>::new().spans.is_empty());
}

#[test]
fn modifiers_keep_known_flags() {
    let mut m = Modifier::empty();
    m.insert(BOLD | ITALIC);
    assert!(m.contains(BOLD));
    assert!(!m.contains(ifengine::view::DIM));
    m.remove(BOLD);
    assert_eq!(m.bits(), ITALIC);
    assert_eq!(Modifier::from_bits_truncate(0xFFFF).bits(), ifengine::view::ALL_MODIFIERS);
}

#[test]
fn interleaved_actions() {
    let parts = vec!["go ".to_string(), "north".to_string(), " or ".to_string(), "south".to_string()];
    let masked: Line<Pg> = Line::from_interleaved_actions::<true>(key("P", 9), parts.clone());
    assert_eq!(masked.spans.len(), 4);
    assert!(masked.spans[0].action.is_none());
    match &masked.spans[3].action {
        Some(Action::SetBit(k, b)) => {
            assert_eq!(k, &key("P", 9));
            assert_eq!(*b, 1);
        }
        _ => panic!("expected a bit"),
    }
    let hashed: Line<Pg> = Line::from_interleaved_actions::<false>(key("P", 9), parts);
    match &hashed.spans[1].action {
        Some(Action::SetValue(_, h)) => assert_eq!(*h, const_fnv1a_hash::fnv1a_hash_str_64("north")),
        _ => panic!("expected a value"),
    }
    assert_eq!(hashed.spans[1].variant, SpanVariant::Link);
}

#[test]
fn image_builders() {
    let i: Image<Pg> = Image::new_url("http://x/y.png".to_string()).with_alt("a cat".to_string());
    assert_eq!(i.width(), 0);
    assert_eq!(i.height(), 0);
    assert_eq!(i.alt, "a cat");
    let j: Image<Pg> = Image::new_local("img/z.png".to_string());
    assert!(matches!(j.variant, ifengine::view::ImageVariant::Local(ref p) if p == "img/z.png"));
}

#[test]
fn choice_variants() {
    let l = || Line::<Pg>::from_iter(vec!["x".to_string()]);
    assert!(ChoiceVariant::once(l()).as_line(true).is_none());
    assert!(ChoiceVariant::once(l()).as_line(false).is_some());
    assert!(ChoiceVariant::from_option(Some(l())).as_line(true).is_some());
    assert!(ChoiceVariant::<Pg>::from_option(None).as_line(false).is_none());
    assert!(ChoiceVariant::<Pg>::Hidden.as_line(false).is_none());
}

#[test]
fn tags_are_a_set() {
    let mut t = GameTags::new();
    assert!(t.insert("a".to_string()));
    assert!(!t.insert("a".to_string()));
    assert!(t.insert("b".to_string()));
    assert_eq!(t.len(), 2);
    assert_eq!(t.to_vec(), vec!["a".to_string(), "b".to_string()]);
    assert!(t.remove("a"));
    assert_eq!(t.len(), 1);
}

#[test]
fn get_chapter_mut_writes_through() {
    let mut state = GameState::new();
    state.insert(key("F", 1), 1);
    state.get_chapter_mut(&"F".to_string()).insert(2, 5);
    assert_eq!(stored(&state, "F", 1), Some(1));
    assert_eq!(stored(&state, "F", 2), Some(5));
    state.get_chapter_mut(&"G".to_string()).insert(3, 7);
    assert_eq!(stored(&state, "G", 3), Some(7));
}
