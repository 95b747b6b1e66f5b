use proxima_story::executor::StoryExecutor;
use proxima_story::model::{Action, Answer, Batch, Compare, Condition, Operation, Prompt, Story};
use rand::SeedableRng;
use rand_xoshiro::Xoroshiro128StarStar;

fn action(name: &str, op: Operation, value: i64) -> Action {
    Action { name: name.to_string(), op, value }
}

fn answer(text: &str, actions: Vec<Action>) -> Answer {
    Answer { text: text.to_string(), actions }
}

fn prompt(request: &str) -> Prompt {
    Prompt {
        pre_condition: None,
        request: request.to_string(),
        answers: vec![answer("", vec![]), answer("yes", vec![]), answer("no", vec![])],
    }
}

fn gated(request: &str, name: &str, op: Compare, value: i64) -> Prompt {
    let mut p = prompt(request);
    p.pre_condition = Some(Condition { name: name.to_string(), op, value });
    p
}

fn batch(randomized: bool, prompts: Vec<Prompt>) -> Batch {
    Batch { randomized, prompts }
}

fn rng(seed: u64) -> Xoroshiro128StarStar {
    Xoroshiro128StarStar::seed_from_u64(seed)
}

fn request_of(executor: &StoryExecutor) -> Option<String> {
    executor.get_current_prompt().map(|p| p.request.clone())
}

/// Answers `choice` until the story is over, collecting each request shown after the first.
fn play_out(executor: &mut StoryExecutor, choice: usize, seed: u64) -> Vec<String> {
    let mut random = rng(seed);
    let mut seen = Vec::new();
    while executor.get_current_prompt().is_some() {
        if let Some(p) = executor.select_answer(choice, &mut random) {
            seen.push(p.request.clone());
        }
    }
    seen
}

#[test]
fn story_actions_run_at_construction() {
    let story = Story {
        actions: vec![action("gold", Operation::Assign, 10)],
        batches: vec![batch(false, vec![prompt("hello")])],
    };
    let executor = StoryExecutor::new(story);
    assert_eq!(executor.variables().get("gold"), 10);
    assert_eq!(executor.current_batch(), 0);
    assert_eq!(executor.current_prompt(), 0);
    assert_eq!(request_of(&executor), Some("hello".to_string()));
}

#[test]
fn actions_fold_from_zero() {
    let story = Story {
        actions: vec![
            action("x", Operation::Add, 7),
            action("x", Operation::Sub, 2),
            action("x", Operation::Assign, 100),
            action("x", Operation::Add, 1),
            action("x", Operation::Sub, 50),
        ],
        batches: vec![],
    };
    let executor = StoryExecutor::new(story);
    assert_eq!(executor.variables().get("x"), 51);
}

#[test]
fn empty_story_is_over_at_once() {
    let executor = StoryExecutor::new(Story { actions: vec![], batches: vec![] });
    assert!(executor.get_current_prompt().is_none());
}

#[test]
fn leading_empty_batches_are_passed() {
    let story = Story {
        actions: vec![],
        batches: vec![batch(false, vec![]), batch(true, vec![]), batch(false, vec![prompt("first")])],
    };
    let executor = StoryExecutor::new(story);
    assert_eq!(executor.current_batch(), 2);
    assert_eq!(request_of(&executor), Some("first".to_string()));
}

#[test]
fn fixed_batch_in_authored_order() {
    let story = Story {
        actions: vec![],
        batches: vec![batch(false, vec![prompt("a"), prompt("b"), prompt("c"), prompt("d")])],
    };
    let mut executor = StoryExecutor::new(story);
    let mut random = rng(1);
    assert_eq!(request_of(&executor), Some("a".to_string()));
    let next = executor.select_answer(2, &mut random).map(|p| p.request.clone());
    assert_eq!(next, Some("b".to_string()));
    let next = executor.select_answer(0, &mut random).map(|p| p.request.clone());
    assert_eq!(next, Some("c".to_string()));
    let next = executor.select_answer(1, &mut random).map(|p| p.request.clone());
    assert_eq!(next, Some("d".to_string()));
    assert_eq!(executor.current_prompt(), 3);
    assert!(executor.select_answer(1, &mut random).is_none());
}

#[test]
fn batches_follow_each_other_and_reset_the_prompt() {
    let story = Story {
        actions: vec![],
        batches: vec![
            batch(false, vec![prompt("a0"), prompt("a1"), prompt("a2")]),
            batch(false, vec![prompt("b0")]),
            batch(false, vec![]),
            batch(false, vec![prompt("c0"), prompt("c1")]),
        ],
    };
    let mut executor = StoryExecutor::new(story);
    let seen = play_out(&mut executor, 1, 3);
    assert_eq!(seen, vec!["a1", "a2", "b0", "c0", "c1"]);
    assert_eq!(executor.current_batch(), 4);
    assert_eq!(executor.current_prompt(), 0);
}

#[test]
fn finished_story_stays_finished() {
    let story = Story { actions: vec![], batches: vec![batch(false, vec![prompt("only")])] };
    let mut executor = StoryExecutor::new(story);
    let mut random = rng(9);
    assert!(executor.select_answer(1, &mut random).is_none());
    for _ in 0..3 {
        assert!(executor.get_current_prompt().is_none());
    }
    *executor.variables_mut().get_mut("late") = 1;
    assert!(executor.get_current_prompt().is_none());
}

#[test]
fn randomized_batch_shows_each_prompt_once() {
    let names = ["r0", "r1", "r2", "r3", "r4", "r5"];
    let mut orders = Vec::new();
    for seed in 0..20u64 {
        let prompts = names.iter().map(|n| prompt(n)).collect();
        let story = Story { actions: vec![], batches: vec![batch(true, prompts)] };
        let mut executor = StoryExecutor::new(story);
        let first = request_of(&executor).unwrap();
        assert_eq!(first, "r0");
        let mut shown = vec![first];
        shown.extend(play_out(&mut executor, 1, seed));
        let mut sorted = shown.clone();
        sorted.sort();
        assert_eq!(sorted, names.iter().map(|n| n.to_string()).collect::<Vec<_>>());
        orders.push(shown);
    }
    // The draws reorder the batch: not every run keeps the authored order.
    let authored: Vec<String> = names.iter().map(|n| n.to_string()).collect();
    assert!(orders.iter().any(|o| *o != authored));
    assert!(orders.iter().any(|o| *o != orders[0]));
}

#[test]
fn same_seed_gives_same_order() {
    let build = || {
        let prompts = (0..8).map(|i| prompt(&format!("q{i}"))).collect();
        StoryExecutor::new(Story { actions: vec![], batches: vec![batch(true, prompts)] })
    };
    let mut one = build();
    let mut two = build();
    assert_eq!(play_out(&mut one, 1, 77), play_out(&mut two, 1, 77));
}

#[test]
fn failing_pre_condition_skips_to_next_batch() {
    let story = Story {
        actions: vec![],
        batches: vec![
            batch(false, vec![prompt("hello"), gated("gate", "counter", Compare::Equal, 5)]),
            batch(false, vec![prompt("next")]),
        ],
    };
    let mut executor = StoryExecutor::new(story);
    let mut random = rng(2);
    let next = executor.select_answer(1, &mut random).map(|p| p.request.clone());
    assert_eq!(next, Some("next".to_string()));
    assert_eq!(executor.current_batch(), 1);
    assert_eq!(executor.current_prompt(), 0);
}

#[test]
fn failing_pre_condition_on_last_prompt_ends_story() {
    let story = Story {
        actions: vec![],
        batches: vec![batch(false, vec![prompt("hello"), gated("gate", "counter", Compare::Equal, 5)])],
    };
    let mut executor = StoryExecutor::new(story);
    let mut random = rng(2);
    assert!(executor.select_answer(2, &mut random).is_none());
    assert!(executor.get_current_prompt().is_none());
}

#[test]
fn answer_actions_open_a_gated_prompt() {
    let mut opening = prompt("hello");
    opening.answers[1].actions = vec![action("courage", Operation::Add, 3)];
    let story = Story {
        actions: vec![],
        batches: vec![batch(
            false,
            vec![
                opening,
                gated("brave", "courage", Compare::More, 2),
                gated("timid", "courage", Compare::Less, 1),
                prompt("end"),
            ],
        )],
    };
    let mut executor = StoryExecutor::new(story);
    let mut random = rng(5);
    let next = executor.select_answer(1, &mut random).map(|p| p.request.clone());
    assert_eq!(next, Some("brave".to_string()));
    let next = executor.select_answer(1, &mut random).map(|p| p.request.clone());
    assert_eq!(next, Some("end".to_string()));
}

#[test]
fn answer_actions_apply_when_the_story_ends() {
    let mut last = prompt("last");
    last.answers[2].actions =
        vec![action("ending", Operation::Assign, 3), action("score", Operation::Sub, 4)];
    let story = Story { actions: vec![], batches: vec![batch(false, vec![last])] };
    let mut executor = StoryExecutor::new(story);
    let mut random = rng(4);
    assert!(executor.select_answer(2, &mut random).is_none());
    assert_eq!(executor.variables().get("ending"), 3);
    assert_eq!(executor.variables().get("score"), -4);
}

#[test]
fn seeded_variables_gate_prompts() {
    let story = Story {
        actions: vec![],
        batches: vec![batch(
            false,
            vec![prompt("hello"), gated("secret", "key", Compare::Not, 0), prompt("after")],
        )],
    };
    let mut executor = StoryExecutor::new(story);
    *executor.variables_mut().get_mut("key") = 1;
    assert_eq!(executor.current_prompt(), 0);
    let mut random = rng(6);
    let next = executor.select_answer(1, &mut random).map(|p| p.request.clone());
    assert_eq!(next, Some("secret".to_string()));
}

#[test]
fn randomized_batch_with_gates_shows_only_open_prompts() {
    for seed in 0..10u64 {
        let story = Story {
            actions: vec![action("mood", Operation::Assign, 1)],
            batches: vec![
                batch(false, vec![prompt("intro")]),
                batch(
                    true,
                    vec![
                        gated("happy", "mood", Compare::Equal, 1),
                        gated("sad", "mood", Compare::Equal, 0),
                        prompt("plain"),
                        gated("calm", "mood", Compare::Less, 5),
                    ],
                ),
            ],
        };
        let mut executor = StoryExecutor::new(story);
        let mut shown = play_out(&mut executor, 1, seed);
        shown.sort();
        assert_eq!(shown, vec!["calm", "happy", "plain"]);
    }
}
