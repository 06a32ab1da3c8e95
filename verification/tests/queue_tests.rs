use honor::lcu_api::game_queues::{Queue, Queues};
use honor::lcu_api::lol_game_queues::{Queue as Listed, Queues as DescriptionQueues, RawQueue};
use honor::sorting::sort_by_description;

fn queue(category: &str, description: &str, game_mode: &str, ranked: bool, availability: &str) -> Queue {
    Queue {
        category: category.to_string(),
        description: description.to_string(),
        gameMode: game_mode.to_string(),
        isRanked: ranked,
        queueAvailability: availability.to_string(),
    }
}

fn descriptions(list: &[Queue]) -> Vec<String> {
    list.iter().map(|q| q.description.clone()).collect()
}

#[test]
fn queues_are_filtered_renamed_sorted_and_grouped() {
    let input = vec![
        queue("PvP", "Ranked Solo/Duo", "CLASSIC", true, "Available"),
        queue("PvP", "Blind Pick", "CLASSIC", false, "Available"),
        queue("PvP", "Clash", "CLASSIC", true, "Available"),
        queue("PvP", "5v5", "NEXUSBLITZ", false, "Available"),
        queue("PvP", "Pick URF", "URF", false, "Available"),
        queue("PvP", "ARAM", "ARAM", false, "Available"),
        queue("VersusAi", "Co-op vs. AI Intro", "CLASSIC", false, "Available"),
        queue("PvP", "Tutorial 1", "TUTORIAL_MODULE_1", false, "Available"),
        queue("PvP", "Draft Pick", "CLASSIC", false, "PlatformDisabled"),
        queue("PvP", "Ranked Flex", "CLASSIC", true, "Available"),
    ];
    let queues = Queues::from(input);
    assert_eq!(descriptions(&queues.ranked), vec!["Ranked Flex", "Ranked Solo/Duo"]);
    assert_eq!(
        descriptions(&queues.casual),
        vec!["ARAM", "Blind Pick", "Nexus Blitz", "URF: Pick URF"]
    );
    assert_eq!(descriptions(&queues.versus_ai), vec!["Co-op vs. AI Intro", "Tutorial 1"]);
}

#[test]
fn equal_descriptions_keep_their_order() {
    let input = vec![
        queue("PvP", "Same", "CLASSIC", false, "Available"),
        queue("Other", "Same", "CLASSIC", false, "Available"),
        queue("PvP", "Another", "CLASSIC", false, "Available"),
        queue("Third", "Same", "CLASSIC", false, "Available"),
    ];
    let queues = Queues::from(input);
    let categories: Vec<String> = queues.casual.iter().map(|q| q.category.clone()).collect();
    assert_eq!(categories, vec!["PvP", "PvP", "Other", "Third"]);
    assert_eq!(descriptions(&queues.casual), vec!["Another", "Same", "Same", "Same"]);
}

#[test]
fn ranked_versus_ai_queue_is_in_both_lists() {
    let input = vec![queue("VersusAi", "Ranked bots", "CLASSIC", true, "Available")];
    let queues = Queues::from(input);
    assert_eq!(descriptions(&queues.ranked), vec!["Ranked bots"]);
    assert_eq!(descriptions(&queues.versus_ai), vec!["Ranked bots"]);
    assert!(queues.casual.is_empty());
}

#[test]
fn casual_and_versus_ai_lists_do_not_overlap() {
    let input = vec![
        queue("VersusAi", "Intro", "CLASSIC", false, "Available"),
        queue("PvP", "Tutorial 2", "TUTORIAL_MODULE_2", false, "Available"),
        queue("PvP", "Blind", "CLASSIC", false, "Available"),
        queue("VersusAi", "Tutorial bots", "CLASSIC", false, "Available"),
    ];
    let queues = Queues::from(input);
    for c in &queues.casual {
        for v in &queues.versus_ai {
            assert_ne!(c.description, v.description);
        }
    }
    assert_eq!(queues.casual.len() + queues.versus_ai.len(), 4);
}

#[test]
fn no_queues_give_empty_lists() {
    let queues = Queues::from(Vec::new());
    assert!(queues.ranked.is_empty() && queues.casual.is_empty() && queues.versus_ai.is_empty());
    let defaults = Queues::default();
    assert!(defaults.ranked.is_empty() && defaults.casual.is_empty() && defaults.versus_ai.is_empty());
}

fn raw(category: &str, description: &str, ranked: bool, availability: &str) -> RawQueue {
    RawQueue {
        category: category.to_string(),
        description: description.to_string(),
        isRanked: ranked,
        queueAvailability: availability.to_string(),
    }
}

#[test]
fn description_lists_keep_descriptions_only() {
    let input = vec![
        raw("PvP", "Ranked Solo/Duo", true, "Available"),
        raw("PvP", "Clash", true, "Available"),
        raw("PvP", "Blind Pick", false, "Available"),
        raw("VersusAi", "Co-op vs. AI", false, "Available"),
        raw("PvP", "Tutorial 1", false, "Available"),
        raw("PvP", "Draft Pick", false, "Unavailable"),
        raw("PvP", "ARAM", false, "Available"),
    ];
    let queues = DescriptionQueues::from(input);
    let d = |l: &Vec<honor::lcu_api::lol_game_queues::Queue>| -> Vec<String> {
        l.iter().map(|q| q.description.clone()).collect()
    };
    assert_eq!(d(&queues.ranked), vec!["Ranked Solo/Duo"]);
    assert_eq!(d(&queues.casual), vec!["ARAM", "Blind Pick"]);
    assert_eq!(d(&queues.versus_ai), vec!["Co-op vs. AI", "Tutorial 1"]);
}

#[test]
fn to_data_keeps_description() {
    let q = raw("PvP", "Blind Pick", false, "Available").to_data();
    assert_eq!(q.description, "Blind Pick");
}

#[test]
fn sort_by_description_is_stable_byte_order() {
    let input: Vec<RawQueue> = vec![
        raw("first", "b", false, "Available"),
        raw("x", "B", false, "Available"),
        raw("second", "b", false, "Available"),
        raw("y", "a", false, "Available"),
        raw("z", "", false, "Available"),
    ];
    let sorted = sort_by_description(input);
    let order: Vec<(String, String)> =
        sorted.iter().map(|q| (q.description.clone(), q.category.clone())).collect();
    assert_eq!(
        order,
        vec![
            ("".to_string(), "z".to_string()),
            ("B".to_string(), "x".to_string()),
            ("a".to_string(), "y".to_string()),
            ("b".to_string(), "first".to_string()),
            ("b".to_string(), "second".to_string()),
        ]
    );
    let listed = sort_by_description(vec![Listed { description: "z".to_string() }, Listed { description: "m".to_string() }]);
    assert_eq!(listed[0].description, "m");
}

fn all_descriptions(q: &Queues) -> (Vec<String>, Vec<String>, Vec<String>) {
    (descriptions(&q.ranked), descriptions(&q.casual), descriptions(&q.versus_ai))
}

#[test]
fn unavailable_queues_and_input_order_do_not_matter() {
    let make = || {
        vec![
            queue("PvP", "Ranked Solo/Duo", "CLASSIC", true, "Available"),
            queue("PvP", "Blind Pick", "CLASSIC", false, "Available"),
            queue("VersusAi", "Intro", "CLASSIC", false, "Available"),
            queue("PvP", "Pick URF", "URF", false, "Available"),
        ]
    };
    let base = all_descriptions(&Queues::from(make()));
    for place in 0..=4 {
        let mut with_unavailable = make();
        with_unavailable.insert(place, queue("PvP", "Draft Pick", "CLASSIC", false, "PlatformDisabled"));
        assert_eq!(all_descriptions(&Queues::from(with_unavailable)), base);
    }
    let mut reversed = make();
    reversed.reverse();
    assert_eq!(all_descriptions(&Queues::from(reversed)), base);
    let mut rotated = make();
    rotated.rotate_left(2);
    assert_eq!(all_descriptions(&Queues::from(rotated)), base);
}
