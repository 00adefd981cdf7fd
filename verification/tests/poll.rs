use data_heap::domain::error::Error;
use data_heap::telegram::api::{
    failure_text, CallbackQuery, Chat, Message, Response, ResponseParameters, Update,
};
use data_heap::telegram::parse::UNSUPPORTED_OTHER;
use data_heap::telegram::poll::{plan_poll, route_updates, PollPlan, UpdateAction};

fn message(id: i64, text: Option<&str>) -> Message {
    Message {
        message_id: id,
        date: 0,
        chat: Chat { id: 9 },
        from: None,
        text: text.map(String::from),
        caption: None,
        photo: false,
        video: false,
        document: false,
        audio: false,
        voice: None,
        video_note: false,
        sticker: false,
        animation: false,
    }
}

fn update(update_id: i64, msg: Option<Message>, cb: Option<CallbackQuery>) -> Update {
    Update { update_id, message: msg, callback_query: cb }
}

#[test]
fn batch_moves_offset_past_every_update() {
    let updates = vec![
        update(5, Some(message(1, Some("hi"))), None),
        update(3, None, None),
        update(8, Some(message(2, None)), None),
        update(
            7,
            Some(message(3, Some("ignored"))),
            Some(CallbackQuery { id: "q".into(), data: Some("delete:1".into()), message: None }),
        ),
    ];
    let (offset, actions) = route_updates(4, updates);
    assert_eq!(offset, 9);
    assert_eq!(actions.len(), 4);
    assert!(matches!(&actions[0], UpdateAction::Store(im) if im.message_id == 1));
    assert!(matches!(actions[1], UpdateAction::Skip));
    assert!(matches!(
        actions[2],
        UpdateAction::Reply { chat_id: 9, message_id: 2, text } if text == UNSUPPORTED_OTHER
    ));
    assert!(matches!(&actions[3], UpdateAction::Callback(cb) if cb.id == "q"));
}

#[test]
fn old_updates_do_not_move_offset_back() {
    let (offset, actions) = route_updates(100, vec![update(3, None, None)]);
    assert_eq!(offset, 100);
    assert_eq!(actions.len(), 1);
    let (offset, _) = route_updates(100, Vec::new());
    assert_eq!(offset, 100);
}

fn response(ok: bool, retry: Option<u64>, desc: Option<&str>) -> Response<Vec<Update>> {
    Response {
        ok,
        description: desc.map(String::from),
        result: None,
        parameters: Some(ResponseParameters { retry_after: retry }),
    }
}

#[test]
fn rate_limit_and_refusals_are_told_apart() {
    assert!(matches!(plan_poll(response(false, Some(3), None)), Ok(PollPlan::RetryAfter(3))));
    match plan_poll(response(false, Some(0), Some("Too Many Requests"))) {
        Err(Error::Telegram(m)) => assert_eq!(m, "getUpdates: Too Many Requests"),
        _ => panic!("expected an error"),
    }
    match plan_poll(response(false, None, None)) {
        Err(Error::Telegram(m)) => assert_eq!(m, "getUpdates: unknown error"),
        _ => panic!("expected an error"),
    }
    assert!(matches!(plan_poll(response(true, Some(3), None)), Ok(PollPlan::Updates(v)) if v.is_empty()));
}

#[test]
fn failure_text_names_context() {
    assert_eq!(failure_text("telegram getFile", Some("file is too big".into())), "telegram getFile: file is too big");
}
