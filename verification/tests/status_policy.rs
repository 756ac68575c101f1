use quotamiser::status_policy::{decide, ClientAction, ProviderAction, ReservationAction};

#[test]
fn success_relays_and_settles() {
    let d = decide(200);
    assert_eq!(
        (d.client, d.provider, d.reservation),
        (
            ClientAction::Relay,
            ProviderAction::Keep,
            ReservationAction::Settle
        )
    );
}

#[test]
fn exactly_the_listed_refusals_release_the_reservation() {
    for status in 100..600u16 {
        let releases = decide(status).reservation == ReservationAction::ReleaseRejected;
        assert_eq!(
            releases,
            matches!(status, 400 | 401 | 402 | 403 | 404 | 422 | 429),
            "{status}"
        );
    }
}

#[test]
fn redirects_and_server_errors_hold_the_reservation() {
    for status in [301, 302, 307, 308, 405, 409, 413, 500, 502, 503, 504] {
        assert_eq!(
            decide(status).reservation,
            ReservationAction::HoldAsUnknown,
            "{status}"
        );
    }
}

#[test]
fn a_redirect_closes_the_provider() {
    for status in [301, 302, 303, 307, 308] {
        let d = decide(status);
        assert_eq!(d.client, ClientAction::TryNextProvider, "{status}");
        assert_eq!(d.provider, ProviderAction::CloseUntilRemediated, "{status}");
    }
}

#[test]
fn only_a_malformed_request_is_returned_to_the_client() {
    for status in 100..600u16 {
        let returned = decide(status).client == ClientAction::ReturnError;
        assert_eq!(returned, matches!(status, 400 | 422), "{status}");
    }
}

#[test]
fn payment_required_moves_on_and_closes_the_provider() {
    let d = decide(402);
    assert_eq!(d.client, ClientAction::TryNextProvider);
    assert_eq!(d.provider, ProviderAction::CloseUntilRemediated);
}

#[test]
fn a_rate_limit_backs_off_and_server_errors_do_not_close() {
    assert_eq!(decide(429).provider, ProviderAction::BackOff);
    for status in [500, 502, 503, 504] {
        let d = decide(status);
        assert_eq!(d.client, ClientAction::TryNextProvider, "{status}");
        assert_eq!(d.provider, ProviderAction::Keep, "{status}");
    }
}
