use unlock::html::{closes_of, layout, percent, push_decimal, push_escaped, render, window};
use unlock::{Event, EventId, Events, Leave, LockId, LockKind};

fn enter(id: usize, timestamp: u64, thread_index: usize, parent: Option<usize>, name: &str) -> Event {
    Event {
        id: EventId(id),
        timestamp,
        thread_index,
        parent: parent.map(EventId),
        name: name.to_string(),
        guarded_type: "Vec<u8>".to_string(),
        lock: LockId::new(LockKind::RwLock, 3),
        backtrace: None,
    }
}

fn leave(sibling: usize, timestamp: u64) -> Leave {
    Leave { sibling: EventId(sibling), thread_index: 0, timestamp }
}

#[test]
fn layout_is_proportional() {
    assert_eq!(layout(20, 70, 0, 100), (20, 50));
    assert_eq!(layout(0, 100, 0, 100), (0, 100));
    // A zero-length span keeps a zero width.
    assert_eq!(layout(40, 40, 0, 100), (40, 0));
    // The window need not start at zero.
    assert_eq!(layout(150, 200, 100, 300), (25, 25));
}

#[test]
fn percent_rounds_half_up() {
    assert_eq!(percent(1, 200), 1);
    assert_eq!(percent(1, 201), 0);
    assert_eq!(percent(1, 3), 33);
    assert_eq!(percent(2, 3), 67);
    assert_eq!(percent(0, 7), 0);
    assert_eq!(percent(7, 7), 100);
    // A part beyond the whole is clamped to it.
    assert_eq!(percent(9, 7), 100);
    assert_eq!(percent(u64::MAX, u64::MAX), 100);
    assert_eq!(percent(u64::MAX / 2, u64::MAX), 50);
}

#[test]
fn decimal_digits() {
    let mut s = String::from("n=");
    push_decimal(&mut s, 0);
    assert_eq!(s, "n=0");
    let mut s = String::new();
    push_decimal(&mut s, 1907);
    assert_eq!(s, "1907");
    let mut s = String::new();
    push_decimal(&mut s, u64::MAX);
    assert_eq!(s, u64::MAX.to_string());
}

#[test]
fn escaping_angle_brackets() {
    let mut s = String::from(">");
    push_escaped(&mut s, "Vec<Option<u8>>");
    assert_eq!(s, ">Vec&lt;Option&lt;u8&gt;&gt;");
    let mut s = String::new();
    push_escaped(&mut s, "plain é");
    assert_eq!(s, "plain é");
}

#[test]
fn window_spans_enters_and_leaves() {
    let events = Events {
        enters: vec![enter(1, 30, 0, None, "critical"), enter(2, 10, 0, None, "critical")],
        leaves: vec![leave(1, 50), leave(2, 90)],
    };
    assert_eq!(window(&events), (10, 90));
    assert_eq!(window(&Events::new()), (u64::MAX, 0));
}

#[test]
fn closes_keep_the_last_leave() {
    let closes = closes_of(&vec![leave(1, 5), leave(2, 6), leave(1, 9)]);
    assert_eq!(closes.len(), 2);
    assert_eq!(closes.get(&1), Some(&9));
    assert_eq!(closes.get(&2), Some(&6));
}

#[test]
fn render_empty_is_empty() {
    assert_eq!(render(&Events::new(), "t.css", "t.js"), "");
    let only_enters = Events { enters: vec![enter(1, 0, 0, None, "critical")], leaves: vec![] };
    assert_eq!(render(&only_enters, "t.css", "t.js"), "");
}

#[test]
fn render_places_spans_in_the_window() {
    let events = Events {
        enters: vec![enter(1, 0, 0, None, "critical"), enter(2, 20, 0, Some(1), "read")],
        leaves: vec![leave(1, 100), leave(2, 70)],
    };
    let doc = render(&events, "trace.css", "trace.js");
    assert!(doc.starts_with("<!DOCTYPE html>\n<html>\n<head>\n<link href=\"trace.css\" rel=\"stylesheet\">"));
    assert!(doc.ends_with("<script type=\"text/javascript\" src=\"trace.js\"></script>\n</body>\n</html>\n"));
    assert!(doc.contains(
        "<div id=\"event-1\" class=\"section critical\" style=\"width: 100%; left: 0%;\" title=\"critical (0ns-100ns)\"></div>"
    ));
    assert!(doc.contains(
        "<div id=\"event-2\" class=\"section read\" style=\"width: 50%; left: 20%;\" title=\"read (20ns-70ns)\"></div>"
    ));
    assert!(doc.contains("<div class=\"title\">RwLock&lt;Vec&lt;u8&gt;&gt; (lock index: 3)</div>"));
    let raw = LockId::new(LockKind::RwLock, 3).raw();
    assert!(doc.contains(&format!(
        "<div data-toggle=\"event-{raw}-0-details\" data-start=\"0\" data-end=\"100\" class=\"timeline\">"
    )));
    assert!(doc.contains(&format!("<table id=\"event-{raw}-0-details\" class=\"details\">")));
    assert!(doc.contains("<td class=\"title\" colspan=\"6\">Event: 1</td>"));
    assert!(doc.contains("<td>(50ns)</td>"));
    // The child comes after its parent.
    assert!(doc.find("id=\"event-1\"").unwrap() < doc.find("id=\"event-2\"").unwrap());
}

#[test]
fn render_zero_length_span_keeps_its_box() {
    let events = Events {
        enters: vec![enter(1, 0, 0, None, "critical"), enter(2, 40, 0, Some(1), "lock")],
        leaves: vec![leave(1, 100), leave(2, 40)],
    };
    let doc = render(&events, "a.css", "a.js");
    assert!(doc.contains("style=\"width: 0%; left: 40%;\""));
}

#[test]
fn render_skips_unterminated_spans() {
    let events = Events {
        enters: vec![
            enter(1, 0, 0, None, "critical"),
            enter(2, 10, 0, Some(1), "read"),
            enter(3, 50, 1, None, "critical"),
        ],
        leaves: vec![leave(1, 100)],
    };
    let doc = render(&events, "a.css", "a.js");
    assert!(doc.contains("id=\"event-1\""));
    assert!(!doc.contains("id=\"event-2\""));
    assert!(!doc.contains("id=\"event-3\""));
    // The row of thread one is still there, with no details table.
    let raw = LockId::new(LockKind::RwLock, 3).raw();
    assert!(doc.contains(&format!("data-toggle=\"event-{raw}-1-details\"")));
    assert!(!doc.contains(&format!("<table id=\"event-{raw}-1-details\"")));
    assert!(doc.ends_with("</html>\n"));
}

#[test]
fn render_zero_window_draws_no_boxes() {
    let events = Events {
        enters: vec![enter(1, 5, 0, None, "critical")],
        leaves: vec![leave(1, 5)],
    };
    let doc = render(&events, "a.css", "a.js");
    assert!(!doc.contains("class=\"section "));
    assert!(doc.contains("Event: 1"));
    assert!(doc.ends_with("</html>\n"));
}

#[test]
fn render_groups_by_lock_then_thread() {
    let mut second = enter(4, 5, 0, None, "critical");
    second.lock = LockId::new(LockKind::Mutex, 1);
    second.guarded_type = "u32".to_string();
    let events = Events {
        enters: vec![
            enter(1, 0, 2, None, "critical"),
            enter(2, 10, 1, None, "critical"),
            enter(3, 20, 2, None, "critical"),
            second,
        ],
        leaves: vec![leave(1, 5), leave(2, 15), leave(3, 25), leave(4, 30)],
    };
    let doc = render(&events, "a.css", "a.js");
    // Lock one of kind RwLock packs below lock one of kind Mutex.
    let rw = doc.find("RwLock&lt;Vec&lt;u8&gt;&gt;").unwrap();
    let mutex = doc.find("Mutex&lt;u32&gt;").unwrap();
    assert!(rw < mutex);
    // Threads in order, spans of one thread together.
    let t1 = doc.find("id=\"event-2\"").unwrap();
    let t2a = doc.find("id=\"event-1\"").unwrap();
    let t2b = doc.find("id=\"event-3\"").unwrap();
    assert!(t1 < t2a && t2a < t2b && t2b < mutex);
    assert_eq!(doc.matches("class=\"lock-instance\"").count(), 2);
    assert_eq!(doc.matches("class=\"timeline\"").count(), 3);
}

#[test]
fn render_shows_backtraces_escaped() {
    let mut e = enter(1, 0, 0, None, "critical");
    e.backtrace = Some(unlock::EventBacktrace("at f::<T>".to_string()));
    let events = Events { enters: vec![e], leaves: vec![leave(1, 10)] };
    let doc = render(&events, "a.css", "a.js");
    assert!(doc.contains(
        "<tr><td>Backtrace:</td><td class=\"backtrace\" colspan=\"5\">at f::&lt;T&gt;</td></tr>"
    ));
}

#[test]
fn render_orders_types_of_one_lock_by_text() {
    let mut zeta = enter(1, 0, 0, None, "critical");
    zeta.guarded_type = "zeta".to_string();
    let mut alpha = enter(2, 5, 0, None, "critical");
    alpha.guarded_type = "alpha".to_string();
    let events = Events { enters: vec![zeta, alpha], leaves: vec![leave(1, 10), leave(2, 20)] };
    let doc = render(&events, "a.css", "a.js");
    let a = doc.find("RwLock&lt;alpha&gt;").unwrap();
    let z = doc.find("RwLock&lt;zeta&gt;").unwrap();
    assert!(a < z);
    assert_eq!(doc.matches("class=\"lock-instance\"").count(), 2);
}
