use vstd::prelude::*;
use crate::strutil::{dec_digits, usize_to_string, concat_str};

verus! {

/// The tool surfaces a window can show.
#[derive(Debug)]
pub enum WindowCategory {
    Homepage,
    ToolsTime,
    ToolsJson2Csv,
    ToolsJson2Query,
}

/// The title a window gets when it opens on the given surface.
pub fn window_title(category: &WindowCategory) -> (t: String)
    ensures
        category is Homepage ==> t@ == "主页"@,
        category is ToolsTime ==> t@ == "时间工具"@,
        category is ToolsJson2Csv ==> t@ == "Json转Csv"@,
        category is ToolsJson2Query ==> t@ == "Json转Query"@,
{
    match category {
        WindowCategory::Homepage => String::from_str("主页"),
        WindowCategory::ToolsTime => String::from_str("时间工具"),
        WindowCategory::ToolsJson2Csv => String::from_str("Json转Csv"),
        WindowCategory::ToolsJson2Query => String::from_str("Json转Query"),
    }
}

/// The placeholder title of the n-th window before a surface names it.
pub fn initial_window_title(count: usize) -> (t: String)
    ensures
        t@ == "Window_"@ + dec_digits(count as nat),
{
    let digits = usize_to_string(count);
    concat_str("Window_", digits.as_str())
}

/// The pages of the desktop shell.
#[derive(PartialEq, Eq, Structural, Debug)]
pub enum Page {
    HomePage,
    PushBoxGame,
}

#[derive(Debug)]
pub struct PageState {
    pub id: Page,
    pub title: String,
}

pub struct GlobalState {
    pub current_page: Page,
    pub page_state_map: Vec<PageState>,
}

pub struct App {
    pub state: GlobalState,
    pub text: String,
    pub info: String,
    pub current_map: Vec<Vec<i32>>,
}

/// The title registered for a page: the first entry with its id, or the
/// empty string when none is registered.
pub open spec fn title_of(pages: Seq<PageState>, page: Page) -> Seq<char>
    decreases pages.len(),
{
    if pages.len() == 0 {
        Seq::empty()
    } else if pages[0].id == page {
        pages[0].title@
    } else {
        title_of(pages.subrange(1, pages.len() as int), page)
    }
}

/// The board the push-box game starts on: 1 walls, 2 floor, 3 the player,
/// 4 the box, 5 the goal.
pub open spec fn initial_game_map() -> Seq<Seq<i32>> {
    seq![
        seq![1i32, 1i32, 1i32, 1i32, 1i32, 1i32, 1i32, 1i32, 1i32, 1i32],
        seq![1i32, 1i32, 1i32, 2i32, 2i32, 2i32, 2i32, 1i32, 1i32, 1i32],
        seq![1i32, 1i32, 2i32, 2i32, 4i32, 2i32, 2i32, 2i32, 1i32, 1i32],
        seq![1i32, 1i32, 2i32, 3i32, 2i32, 2i32, 2i32, 2i32, 1i32, 1i32],
        seq![1i32, 1i32, 2i32, 2i32, 2i32, 1i32, 1i32, 1i32, 1i32, 1i32],
        seq![1i32, 1i32, 2i32, 2i32, 2i32, 1i32, 1i32, 1i32, 1i32, 1i32],
        seq![1i32, 1i32, 2i32, 2i32, 2i32, 5i32, 1i32, 1i32, 1i32, 1i32],
        seq![1i32, 1i32, 1i32, 1i32, 1i32, 1i32, 1i32, 1i32, 1i32, 1i32],
        seq![1i32, 1i32, 1i32, 1i32, 1i32, 1i32, 1i32, 1i32, 1i32, 1i32],
        seq![1i32, 1i32, 1i32, 1i32, 1i32, 1i32, 1i32, 1i32, 1i32, 1i32],
    ]
}

impl App {
    /// The shell's starting state: the home page current, both pages
    /// registered under their names, and the game board in its starting
    /// arrangement.
    pub fn new() -> (r: App)
        ensures
            r.state.current_page == Page::HomePage,
            r.state.page_state_map@.len() == 2,
            r.state.page_state_map@[0].id == Page::HomePage,
            r.state.page_state_map@[0].title@ == "首页"@,
            r.state.page_state_map@[1].id == Page::PushBoxGame,
            r.state.page_state_map@[1].title@ == "推箱子"@,
            r.text@ == "操作："@,
            r.info@ == "结果："@,
            r.current_map@.map_values(|row: Vec<i32>| row@) == initial_game_map(),
    {
        let mut state_map: Vec<PageState> = Vec::new();
        state_map.push(PageState { id: Page::HomePage, title: String::from_str("首页") });
        state_map.push(PageState { id: Page::PushBoxGame, title: String::from_str("推箱子") });
        let game_map = vec![
            vec![1i32, 1i32, 1i32, 1i32, 1i32, 1i32, 1i32, 1i32, 1i32, 1i32],
            vec![1i32, 1i32, 1i32, 2i32, 2i32, 2i32, 2i32, 1i32, 1i32, 1i32],
            vec![1i32, 1i32, 2i32, 2i32, 4i32, 2i32, 2i32, 2i32, 1i32, 1i32],
            vec![1i32, 1i32, 2i32, 3i32, 2i32, 2i32, 2i32, 2i32, 1i32, 1i32],
            vec![1i32, 1i32, 2i32, 2i32, 2i32, 1i32, 1i32, 1i32, 1i32, 1i32],
            vec![1i32, 1i32, 2i32, 2i32, 2i32, 1i32, 1i32, 1i32, 1i32, 1i32],
            vec![1i32, 1i32, 2i32, 2i32, 2i32, 5i32, 1i32, 1i32, 1i32, 1i32],
            vec![1i32, 1i32, 1i32, 1i32, 1i32, 1i32, 1i32, 1i32, 1i32, 1i32],
            vec![1i32, 1i32, 1i32, 1i32, 1i32, 1i32, 1i32, 1i32, 1i32, 1i32],
            vec![1i32, 1i32, 1i32, 1i32, 1i32, 1i32, 1i32, 1i32, 1i32, 1i32],
        ];
        proof {
            assert(game_map@.map_values(|row: Vec<i32>| row@) =~~= initial_game_map());
        }
        App {
            state: GlobalState {
                current_page: Page::HomePage,
                page_state_map: state_map,
            },
            text: String::from_str("操作："),
            info: String::from_str("结果："),
            current_map: game_map,
        }
    }

    /// The title of the page the shell is on, or the empty string when the
    /// page is not registered; the state is left as it was.
    #[verifier::loop_isolation(false)]
    pub fn get_current_page_title(&mut self) -> (t: String)
        ensures
            t@ == title_of(old(self).state.page_state_map@, old(self).state.current_page),
            *final(self) == *old(self),
    {
        let pages = &self.state.page_state_map;
        let mut i: usize = 0;
        proof {
            assert(pages@.subrange(0, pages@.len() as int) =~= pages@);
        }
        while i < pages.len()
            invariant
                0 <= i <= pages@.len(),
                title_of(pages@.subrange(i as int, pages@.len() as int),
                    self.state.current_page)
                    == title_of(pages@, self.state.current_page),
            decreases pages.len() - i,
        {
            let ghost tail = pages@.subrange(i as int, pages@.len() as int);
            if pages[i].id == self.state.current_page {
                proof {
                    assert(tail[0] == pages@[i as int]);
                    assert(title_of(tail, self.state.current_page)
                        == pages@[i as int].title@);
                }
                return pages[i].title.clone();
            }
            proof {
                assert(tail.subrange(1, tail.len() as int)
                    =~= pages@.subrange(i + 1, pages@.len() as int));
            }
            i = i + 1;
        }
        proof {
            assert(pages@.subrange(pages@.len() as int, pages@.len() as int)
                =~= Seq::<PageState>::empty());
        }
        String::new()
    }
}

} // verus!
