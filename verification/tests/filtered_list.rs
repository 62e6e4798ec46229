use tori::filtered_list::FilteredList;
use tori::m3u::Song;

fn songs() -> Vec<Song> {
    ["Blue", "Green", "Blue in Green", "So What", "Green"]
        .iter()
        .enumerate()
        .map(|(i, title)| Song {
            title: title.to_string(),
            duration: i as u64,
            path: format!("/music/{}.mp3", i),
        })
        .collect()
}

#[test]
fn a_new_list_shows_nothing() {
    let mut list: FilteredList<u32> = FilteredList::new();
    assert_eq!(list.len(), 0);
    assert!(list.selected_item().is_none());
    assert!(list.selected_origin().is_none());
    list.select_next();
    assert!(list.selected_item().is_none());
    list.select_prev();
    assert!(list.selected_item().is_none());
}

#[test]
fn the_default_list_shows_nothing() {
    let list: FilteredList<Song> = FilteredList::default();
    assert_eq!(list.len(), 0);
    assert!(list.selected_item().is_none());
}

#[test]
fn filter_keeps_the_order_of_the_collection() {
    let numbers = vec![5u32, 2, 8, 1, 9, 4];
    let mut list = FilteredList::new();
    list.filter(&numbers, |n| *n > 3);
    assert_eq!(list.len(), 4);
    let mut seen = Vec::new();
    loop {
        seen.push((*list.selected_item().unwrap(), list.selected_origin().unwrap()));
        let before = list.selected_origin();
        list.select_next();
        if list.selected_origin() == before {
            break;
        }
    }
    assert_eq!(seen, vec![(5, 0), (8, 2), (9, 4), (4, 5)]);
    assert_eq!(numbers, vec![5u32, 2, 8, 1, 9, 4]);
}

#[test]
fn filter_selects_the_first_element() {
    let numbers = vec![1u32, 2, 3];
    let mut list = FilteredList::new();
    list.filter(&numbers, |_| true);
    assert_eq!(list.selected_item(), Some(&1));
    list.filter(&numbers, |_| false);
    assert_eq!(list.len(), 0);
    assert_eq!(list.selected_item(), None);
}

#[test]
fn selection_does_not_wrap_around() {
    let numbers = vec![10u32, 20, 30];
    let mut list = FilteredList::new();
    list.filter(&numbers, |_| true);
    list.select_prev();
    assert_eq!(list.selected_item(), Some(&10));
    list.select_next();
    assert_eq!(list.selected_item(), Some(&20));
    list.select_next();
    assert_eq!(list.selected_item(), Some(&30));
    list.select_next();
    assert_eq!(list.selected_item(), Some(&30));
    list.select_prev();
    assert_eq!(list.selected_item(), Some(&20));
}

#[test]
fn selection_follows_the_element_by_value() {
    let all = songs();
    let mut list = FilteredList::new();
    list.filter(&all, |_| true);
    list.select_next();
    list.select_next();
    list.select_next();
    assert_eq!(list.selected_item().unwrap().title, "So What");
    assert_eq!(list.selected_origin(), Some(3));
    list.filter(&all, |s| s.title.to_lowercase().contains("o"));
    assert_eq!(list.len(), 1);
    assert_eq!(list.selected_item().unwrap().title, "So What");
    assert_eq!(list.selected_origin(), Some(3));
    list.filter(&all, |s| s.title.contains("Green"));
    assert_eq!(list.len(), 3);
    assert_eq!(list.selected_item().unwrap().title, "Green");
    assert_eq!(list.selected_origin(), Some(1));
}

#[test]
fn selection_follows_into_another_collection() {
    let all = songs();
    let mut more = songs();
    more.insert(0, Song { title: "Intro".to_string(), duration: 1, path: "/i".to_string() });
    let mut list = FilteredList::new();
    list.filter(&all, |_| true);
    list.select_next();
    list.select_next();
    assert_eq!(list.selected_origin(), Some(2));
    list.filter(&more, |_| true);
    assert_eq!(list.selected_item().unwrap().title, "Blue in Green");
    assert_eq!(list.selected_origin(), Some(3));
}

#[test]
fn equal_elements_are_told_apart_by_their_first_place() {
    let numbers = vec![7u32, 3, 7, 3];
    let mut list = FilteredList::new();
    list.filter(&numbers, |_| true);
    list.select_next();
    list.select_next();
    list.select_next();
    assert_eq!(list.selected_origin(), Some(3));
    list.filter(&numbers, |n| *n == 3);
    assert_eq!(list.selected_origin(), Some(1));
}

#[test]
fn songs_are_equal_by_their_fields() {
    let all = songs();
    assert!(all[1] != all[4]);
    assert!(all[1] == all[1].clone());
    let mut other = all[1].clone();
    other.duration += 1;
    assert!(all[1] != other);
}
