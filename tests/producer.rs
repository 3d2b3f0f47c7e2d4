use auteur_mixer::producer::StreamConsumers;

fn targets(d: &auteur_mixer::producer::SampleDispatch) -> Vec<String> {
    d.deliveries.iter().map(|x| x.consumer_id.clone()).collect()
}

#[test]
fn samples_before_forward_are_dropped() {
    let mut p = StreamConsumers::new();
    assert!(p.add_consumer("a"));
    let d = p.new_sample();
    assert!(d.deliveries.is_empty());
    assert!(!d.request_keyframe);
    p.forward();
    let d = p.new_sample();
    assert_eq!(targets(&d), vec!["a".to_string()]);
}

#[test]
fn consumer_gets_samples_between_attach_and_detach() {
    let mut p = StreamConsumers::new();
    p.forward();
    assert!(p.new_sample().deliveries.is_empty());
    p.add_consumer("a");
    assert_eq!(targets(&p.new_sample()), vec!["a".to_string()]);
    p.add_consumer("b");
    assert_eq!(targets(&p.new_sample()), vec!["a".to_string(), "b".to_string()]);
    assert!(p.remove_consumer("a"));
    assert_eq!(targets(&p.new_sample()), vec!["b".to_string()]);
    assert!(!p.remove_consumer("a"));
}

#[test]
fn one_keyframe_request_on_first_push() {
    let mut p = StreamConsumers::new();
    p.add_consumer("a");
    // dropped samples do not count as a first push
    assert!(!p.new_sample().request_keyframe);
    p.forward();
    assert!(p.new_sample().request_keyframe);
    assert!(!p.new_sample().request_keyframe);
    p.add_consumer("b");
    p.add_consumer("c");
    let d = p.new_sample();
    assert!(d.request_keyframe);
    assert_eq!(d.deliveries.len(), 3);
    assert!(!p.new_sample().request_keyframe);
}

#[test]
fn latency_is_forwarded_once_per_update() {
    let mut p = StreamConsumers::new();
    p.forward();
    p.add_consumer("a");
    assert_eq!(p.new_sample().deliveries[0].latency, None);
    p.update_latency(40);
    assert_eq!(p.new_sample().deliveries[0].latency, Some(40));
    assert_eq!(p.new_sample().deliveries[0].latency, None);
    p.add_consumer("b");
    let d = p.new_sample();
    assert_eq!(d.deliveries[0].latency, None);
    assert_eq!(d.deliveries[1].latency, Some(40));
    p.update_latency(50);
    let d = p.new_sample();
    assert_eq!(d.deliveries[0].latency, Some(50));
    assert_eq!(d.deliveries[1].latency, Some(50));
}

#[test]
fn duplicate_consumer_is_ignored() {
    let mut p = StreamConsumers::new();
    assert!(p.add_consumer("a"));
    assert!(!p.add_consumer("a"));
    assert_eq!(p.get_consumer_ids(), vec!["a".to_string()]);
    assert_eq!(p.find("a"), Some(0));
    assert_eq!(p.find("z"), None);
}

#[test]
fn stuck_consumer_does_not_starve_others() {
    let mut p = StreamConsumers::new();
    p.forward();
    p.add_consumer("stuck");
    p.add_consumer("healthy");
    for _ in 0..150 {
        let d = p.new_sample();
        assert_eq!(targets(&d), vec!["stuck".to_string(), "healthy".to_string()]);
    }
}
