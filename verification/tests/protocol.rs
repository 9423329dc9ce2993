use chaum_pedersen::client::ZkpClientWrapper;
use chaum_pedersen::group::{generate_parameters, GroupParameters};
use chaum_pedersen::natural::Natural;
use chaum_pedersen::server::ZkpServerI;

fn w(value: u64) -> Natural {
    Natural::from_u64(value)
}

fn server_with(p: u64, q: u64, g: u64, h: u64) -> ZkpServerI {
    let mut server = ZkpServerI::new();
    server.install_parameters(GroupParameters::new(w(p), w(q), w(g), w(h)).unwrap());
    server
}

fn client_of(server: &ZkpServerI, username: &str, secret: u64) -> ZkpClientWrapper {
    let encoded = server.parameters().unwrap().to_bytes();
    let mut client = ZkpClientWrapper::new(username.to_string(), w(secret));
    client.init_communication(&encoded.p, &encoded.q, &encoded.g, &encoded.h).unwrap();
    client
}

fn enroll(server: &mut ZkpServerI, client: &mut ZkpClientWrapper) {
    let public = client.register().unwrap();
    server.register(client.username().clone(), &public.first, &public.second);
}

fn prove(server: &mut ZkpServerI, client: &mut ZkpClientWrapper) -> String {
    let commitments = client.generate_prove().unwrap();
    let c = server
        .challenge(client.username().clone(), &commitments.first, &commitments.second)
        .unwrap();
    let s = client.respond(&c).unwrap();
    server.verify(client.username(), &s).unwrap()
}

#[test]
fn concrete_scenario_with_the_toy_group() {
    // p = 23, q = 11, g = 4, h = 2, x = 6, k = 3
    for c in 0..11u64 {
        let mut server = server_with(23, 11, 4, 2);
        let mut client = client_of(&server, "alice", 6);

        let public = client.register().unwrap();
        assert_eq!((public.first.clone(), public.second.clone()), (vec![2], vec![18]));
        server.register("alice".to_string(), &public.first, &public.second);

        let commitments = client.commit(w(3)).unwrap();
        assert_eq!((commitments.first.clone(), commitments.second.clone()), (vec![18], vec![8]));
        let issued = server
            .record_challenge("alice".to_string(), &commitments.first, &commitments.second, w(c))
            .unwrap();
        assert_eq!(Natural::from_bytes(&issued), w(c));

        let s = client.respond(&issued).unwrap();
        assert_eq!(Natural::from_bytes(&s), w((3 + 11 * 6 - c * 6) % 11));
        assert_eq!(server.verify(&"alice".to_string(), &s), Ok("valid_session_token".to_string()));
    }
}

#[test]
fn honest_prover_is_always_accepted() {
    let mut server = server_with(23, 11, 4, 2);
    for secret in 1..11u64 {
        let mut client = client_of(&server, "alice", secret);
        enroll(&mut server, &mut client);
        for _ in 0..20 {
            assert_eq!(prove(&mut server, &mut client), "valid_session_token");
        }
    }
}

#[test]
fn honest_prover_is_accepted_for_every_nonce_and_challenge() {
    for secret in 1..11u64 {
        for k in 0..11u64 {
            for c in 0..11u64 {
                let mut server = server_with(23, 11, 4, 2);
                let mut client = client_of(&server, "alice", secret);
                enroll(&mut server, &mut client);
                let r = client.commit(w(k)).unwrap();
                let issued = server
                    .record_challenge("alice".to_string(), &r.first, &r.second, w(c))
                    .unwrap();
                let s = client.respond(&issued).unwrap();
                assert_eq!(
                    server.verify(&"alice".to_string(), &s),
                    Ok("valid_session_token".to_string())
                );
            }
        }
    }
}

#[test]
fn honest_prover_with_a_large_secret() {
    let mut server = server_with(2039, 1019, 4, 9);
    let mut client = client_of(&server, "alice", 1234);
    enroll(&mut server, &mut client);
    for _ in 0..20 {
        assert_eq!(prove(&mut server, &mut client), "valid_session_token");
    }
}

#[test]
fn honest_prover_in_generated_groups() {
    for _ in 0..10 {
        let mut server = ZkpServerI::new();
        server.install_parameters(generate_parameters(40).unwrap());
        let mut client = client_of(&server, "alice", 123456789);
        enroll(&mut server, &mut client);
        for _ in 0..5 {
            assert_eq!(prove(&mut server, &mut client), "valid_session_token");
        }
    }
}

#[test]
fn guessed_answer_rarely_verifies() {
    // p = 2039, q = 1019: of the 1019 answers below q exactly one verifies
    let mut server = server_with(2039, 1019, 4, 9);
    let mut client = client_of(&server, "alice", 777);
    enroll(&mut server, &mut client);
    let r = client.commit(w(555)).unwrap();
    let mut accepted = 0;
    let mut rejected = 0;
    for guess in 0..1019u64 {
        server.record_challenge("alice".to_string(), &r.first, &r.second, w(321)).unwrap();
        let session = server.verify(&"alice".to_string(), &w(guess).to_bytes()).unwrap();
        if session.is_empty() {
            rejected += 1;
        } else {
            assert_eq!(w(guess), w((555 + 1019 * 777 - 321 * 777) % 1019));
            accepted += 1;
        }
    }
    assert_eq!(accepted, 1);
    assert_eq!(rejected, 1018);
}

#[test]
fn answer_of_one_user_does_not_verify_for_another() {
    let mut server = server_with(2039, 1019, 4, 9);
    let mut alice = client_of(&server, "alice", 100);
    let mut bob = client_of(&server, "bob", 200);
    enroll(&mut server, &mut alice);
    enroll(&mut server, &mut bob);

    let ra = alice.commit(w(11)).unwrap();
    let rb = bob.commit(w(22)).unwrap();
    let ca = server.record_challenge("alice".to_string(), &ra.first, &ra.second, w(5)).unwrap();
    let cb = server.record_challenge("bob".to_string(), &rb.first, &rb.second, w(7)).unwrap();
    let sa = alice.respond(&ca).unwrap();
    let sb = bob.respond(&cb).unwrap();

    // each answer against the other user's challenge
    assert_eq!(server.verify(&"alice".to_string(), &sb), Ok(String::new()));
    assert_eq!(server.verify(&"bob".to_string(), &sa), Ok(String::new()));

    // each answer against the user's own challenge
    server.record_challenge("alice".to_string(), &ra.first, &ra.second, w(5)).unwrap();
    server.record_challenge("bob".to_string(), &rb.first, &rb.second, w(7)).unwrap();
    assert_eq!(server.verify(&"alice".to_string(), &sa), Ok("valid_session_token".to_string()));
    assert_eq!(server.verify(&"bob".to_string(), &sb), Ok("valid_session_token".to_string()));
}

#[test]
fn what_one_user_does_leaves_the_other_untouched() {
    let mut server = server_with(23, 11, 4, 2);
    server.register("alice".to_string(), &[2], &[18]);
    server.record_challenge("alice".to_string(), &[18], &[8], w(1)).unwrap();

    server.register("bob".to_string(), &[3], &[4]);
    server.record_challenge("bob".to_string(), &[5], &[6], w(9)).unwrap();
    assert_eq!(server.verify(&"bob".to_string(), &[1]), Ok(String::new()));
    server.register("bob".to_string(), &[7], &[8]);

    let alice = server.user(&"alice".to_string()).unwrap();
    assert_eq!((&alice.y1, &alice.y2), (&w(2), &w(18)));
    let pending = server.pending_challenge(&"alice".to_string()).unwrap();
    assert_eq!((&pending.r1, &pending.r2, &pending.c), (&w(18), &w(8), &w(1)));
    assert_eq!(server.verify(&"alice".to_string(), &[8]), Ok("valid_session_token".to_string()));
}

#[test]
fn interleaved_proofs_of_two_users() {
    let mut server = server_with(2039, 1019, 4, 9);
    let mut alice = client_of(&server, "alice", 31);
    let mut bob = client_of(&server, "bob", 32);
    enroll(&mut server, &mut alice);
    enroll(&mut server, &mut bob);
    for _ in 0..20 {
        let ra = alice.generate_prove().unwrap();
        let rb = bob.generate_prove().unwrap();
        let cb = server.challenge("bob".to_string(), &rb.first, &rb.second).unwrap();
        let ca = server.challenge("alice".to_string(), &ra.first, &ra.second).unwrap();
        let sa = alice.respond(&ca).unwrap();
        let sb = bob.respond(&cb).unwrap();
        assert_eq!(server.verify(&"bob".to_string(), &sb), Ok("valid_session_token".to_string()));
        assert_eq!(server.verify(&"alice".to_string(), &sa), Ok("valid_session_token".to_string()));
    }
}

#[test]
fn wrong_secret_is_rejected() {
    // alice registered with the secret 6; the prover answers with the secret 7
    let mut server = server_with(23, 11, 4, 2);
    server.register("alice".to_string(), &[2], &[18]);
    let mut impostor = client_of(&server, "alice", 7);
    let r = impostor.commit(w(3)).unwrap();
    let c = server.record_challenge("alice".to_string(), &r.first, &r.second, w(1)).unwrap();
    let s = impostor.respond(&c).unwrap();
    assert_eq!(server.verify(&"alice".to_string(), &s), Ok(String::new()));
}

#[test]
fn generator_outside_the_subgroup_breaks_completeness() {
    // g = 5 has order 22 modulo 23. With x = 1, k = 0, c = 1 the answer is
    // s = (0 - 1) mod 11 = 10, and 5^10 * 5 = 5^11 = 22 (mod 23), not 5^0 = 1.
    let mut server = server_with(23, 11, 5, 2);
    let mut client = client_of(&server, "alice", 1);
    enroll(&mut server, &mut client);
    let r = client.commit(w(0)).unwrap();
    let c = server.record_challenge("alice".to_string(), &r.first, &r.second, w(1)).unwrap();
    let s = client.respond(&c).unwrap();
    assert_eq!(s, vec![10]);
    assert_eq!(server.verify(&"alice".to_string(), &s), Ok(String::new()));
}
