use shuttlings_cch24::day9::{milk, milk_reply, new_rate_limiter};
use shuttlings_cch24::reply::ReplyBody;

#[test]
fn limiter_has_the_milk_settings() {
    let limiter = new_rate_limiter();
    assert_eq!(limiter.max(), 5);
    assert_eq!(limiter.refill(), 1);
    assert_eq!(limiter.interval(), std::time::Duration::from_secs(1));
    assert_eq!(limiter.balance(), 5);
}

#[test]
fn five_glasses_then_none() {
    let limiter = new_rate_limiter();
    for _ in 0..5 {
        let r = milk(&limiter);
        assert_eq!(r.status, 200);
        assert!(matches!(&r.body, ReplyBody::Text(t) if t == "Milk withdrawn\n"));
    }
    let r = milk(&limiter);
    assert_eq!(r.status, 429);
    assert!(matches!(&r.body, ReplyBody::Text(t) if t == "No milk available\n"));
}

#[test]
fn reply_follows_the_grant() {
    assert_eq!(milk_reply(true).status, 200);
    assert_eq!(milk_reply(false).status, 429);
}
