use std::collections::HashMap;
use std::rc::Rc;

use polestar::model::bot::{Bot, Lang};
use polestar::widgets::bot_list::BotList;
use uuid::Uuid;

fn bot(id: Uuid, name: &str) -> Bot {
    Bot::new(
        id,
        name.to_string(),
        vec![Lang::En],
        None,
        None,
        vec![],
        "https://example.com/chat".to_string(),
        HashMap::new(),
        serde_json::Value::Null,
    )
}

fn lang_of(s: &str) -> Lang {
    match s {
        "zh-CN" => Lang::ZhCN,
        _ => Lang::En,
    }
}

fn strings(v: &serde_json::Value) -> Vec<String> {
    v.as_array()
        .map(|a| a.iter().filter_map(|x| x.as_str().map(str::to_string)).collect())
        .unwrap_or_default()
}

/// Builds a bot from one entry of a bot configuration.
fn bot_from_cfg(v: &serde_json::Value) -> Bot {
    let mut headers = HashMap::new();
    if let Some(h) = v["headers"].as_object() {
        for (k, val) in h {
            headers.insert(k.clone(), val.as_str().unwrap_or_default().to_string());
        }
    }
    Bot::new(
        Uuid::parse_str(v["id"].as_str().expect("id")).expect("uuid"),
        v["name"].as_str().expect("name").to_string(),
        v["lang"].as_array().expect("lang").iter().map(|l| lang_of(l.as_str().unwrap())).collect(),
        v["desc"].as_str().map(str::to_string),
        v["cat"].as_str().map(str::to_string),
        strings(&v["tags"]),
        v["url"].as_str().expect("url").to_string(),
        headers,
        v["params"].clone(),
    )
}

const BOT_CFG: &str = r#"{
  "bots": [
    {
      "id": "b4e2d0a4-4f0a-4a76-9e3c-6f5b9b1d2c11",
      "name": "Proofreader",
      "lang": ["en", "zh-CN"],
      "desc": "Corrects what you write",
      "cat": "Language",
      "tags": ["grammar", "language"],
      "url": "https://api.ribir.org/stream/open_ai/v1/chat/completions",
      "headers": { "Content-Type": "application/json" },
      "params": { "model": "gpt-3.5-turbo" }
    }
  ]
}"#;

#[test]
fn load_bot_cfg_file() {
    let preset_bot_cfg =
        serde_json::from_str::<serde_json::Value>(BOT_CFG).expect("Failed to parse bot.json");
    let bots: Vec<Bot> = preset_bot_cfg["bots"]
        .as_array()
        .expect("Failed to parse bots")
        .iter()
        .map(bot_from_cfg)
        .collect();
    let bot = bots.first();
    println!("bot: {:?}", bot);
    let bot = bot.unwrap();
    assert_eq!(bot.name(), "Proofreader");
    assert_eq!(bot.lang(), &[Lang::En, Lang::ZhCN]);
    assert_eq!(bot.desc(), Some("Corrects what you write"));
    assert_eq!(bot.cat(), Some("Language"));
    assert_eq!(bot.tags(), &["grammar".to_string(), "language".to_string()]);
    assert_eq!(bot.url(), "https://api.ribir.org/stream/open_ai/v1/chat/completions");
    assert_eq!(bot.headers().get("Content-Type").map(String::as_str), Some("application/json"));
    assert_eq!(bot.params()["model"], "gpt-3.5-turbo");
    assert_eq!(bot.id().to_string(), "b4e2d0a4-4f0a-4a76-9e3c-6f5b9b1d2c11");
}

fn three() -> (Vec<Uuid>, BotList) {
    let ids: Vec<Uuid> = (0..3).map(|_| Uuid::new_v4()).collect();
    let list = BotList::new(Rc::new(vec![
        bot(ids[0], "Ann"),
        bot(ids[1], "Bob"),
        bot(ids[2], "Anna"),
    ]));
    (ids, list)
}

#[test]
fn nothing_is_selected_at_first() {
    let (_, list) = three();
    assert_eq!(list.selected_bot(), None);
    assert_eq!(list.get_bots().len(), 3);
}

#[test]
fn moves_wrap_around() {
    let (ids, mut list) = three();
    list.move_down();
    assert_eq!(list.selected_bot(), Some((ids[0], "Ann".to_string())));
    list.move_down();
    assert_eq!(list.selected_bot().unwrap().0, ids[1]);
    list.move_down();
    assert_eq!(list.selected_bot().unwrap().0, ids[2]);
    list.move_down();
    assert_eq!(list.selected_bot().unwrap().0, ids[0]);
    list.move_up();
    assert_eq!(list.selected_bot().unwrap().0, ids[2]);

    let (ids, mut list) = three();
    list.move_up();
    assert_eq!(list.selected_bot().unwrap().0, ids[2]);
}

#[test]
fn move_up_undoes_move_down() {
    let (ids, mut list) = three();
    for start in 0..3 {
        list.set_selected_bot(Some(ids[start]));
        list.move_down();
        list.move_up();
        assert_eq!(list.selected_bot().unwrap().0, ids[start]);
        list.move_up();
        list.move_down();
        assert_eq!(list.selected_bot().unwrap().0, ids[start]);
    }
}

#[test]
fn moves_with_repeated_ids_go_by_first_and_last() {
    let x = Uuid::new_v4();
    let y = Uuid::new_v4();
    let z = Uuid::new_v4();
    let mut list = BotList::new(Rc::new(vec![bot(x, "x"), bot(y, "y"), bot(z, "z"), bot(y, "y2")]));
    list.set_selected_bot(Some(x));
    list.move_down();
    assert_eq!(list.selected_bot().unwrap().0, y);
    list.move_up();
    assert_eq!(list.selected_bot().unwrap().0, z);
}

#[test]
fn filter_lists_names_that_contain_it() {
    let (ids, mut list) = three();
    list.set_filter("Ann".to_string(), false);
    let names: Vec<&str> = list.get_bots().iter().map(|b| b.name()).collect();
    assert_eq!(names, vec!["Ann", "Anna"]);
    assert_eq!(list.selected_bot().unwrap().0, ids[0]);

    list.move_down();
    assert_eq!(list.selected_bot().unwrap().0, ids[2]);
    list.set_filter("nna".to_string(), false);
    assert_eq!(list.selected_bot().unwrap().0, ids[2]);

    list.set_filter("Bo".to_string(), false);
    assert_eq!(list.selected_bot(), Some((ids[1], "Bob".to_string())));

    list.set_filter("".to_string(), true);
    assert_eq!(list.get_bots().len(), 3);
    assert_eq!(list.selected_bot().unwrap().0, ids[0]);

    list.set_filter("nobody".to_string(), true);
    assert!(list.get_bots().is_empty());
    assert_eq!(list.selected_bot(), None);
}

#[test]
fn init_select_keeps_a_selection_unless_forced() {
    let (ids, mut list) = three();
    list.set_selected_bot(Some(ids[1]));
    list.init_select(false);
    assert_eq!(list.selected_bot().unwrap().0, ids[1]);
    list.init_select(true);
    assert_eq!(list.selected_bot().unwrap().0, ids[0]);
}

#[test]
fn unknown_selection_names_no_bot() {
    let (_, mut list) = three();
    list.set_selected_bot(Some(Uuid::new_v4()));
    assert_eq!(list.selected_bot(), None);
}
