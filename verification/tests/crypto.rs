use twic::central::{
    authenticate_reply_for, central_action, delete_reply_for, enroll_reply_for, init_reply_for, key_exchange_for,
    update_reply_for, usable_public_key, CentralAction, WorkerRecord,
};
use twic::codec::{decrypt_aes, encrypt_aes};
use twic::link::{outgoing_request, stored_keys, usable_aes_texts};
use twic::messages::{DatabaseReply, DatabaseRequest};
use twic::poly::{
    gen_binary_poly, gen_ternary_poly, gen_uniform_poly, generate_iv, generate_key, mod_coeffs, nearest_int,
    polyadd, polyinv, polymul, polysub, scale_message, Poly,
};
use twic::rlwe::{decrypt, encrypt, keygen, Parameters};
use twic::rlwe_text::{decrypt_string, encrypt_encoded, encrypt_string, keygen_string, try_decrypt_string};

fn ring(n: usize) -> Poly {
    let mut v = vec![0i64; n + 1];
    v[0] = 1;
    v[n] = 1;
    Poly::new(v)
}

fn small_params() -> Parameters {
    Parameters { n: 16, q: 1 << 20, t: 256, f: ring(16) }
}

#[test]
fn polynomial_new_drops_trailing_zeros() {
    assert_eq!(Poly::new(vec![1, 0, 2, 0, 0]).coeffs(), &vec![1, 0, 2]);
    assert_eq!(Poly::new(vec![0, 0]).coeffs(), &Vec::<i64>::new());
}

#[test]
fn ring_product_wraps_with_sign() {
    let f = ring(4);
    let x = Poly::new(vec![1, 2, 3, 4]);
    let y = Poly::new(vec![0, 1]);
    assert_eq!(polymul(&x, &y, 0, &f).coeffs(), &vec![-4, 1, 2, 3]);
    assert_eq!(polymul(&x, &y, 5, &f).coeffs(), &vec![1, 1, 2, -2]);
    let z = Poly::new(vec![1, 1, 1, 1, 1]);
    assert_eq!(polyadd(&x, &z, 0, &f).coeffs(), &vec![1, 3, 4, 5]);
    assert_eq!(polyadd(&x, &y, 7, &f).coeffs(), &vec![1, 3, 3, -3]);
    assert_eq!(polyinv(&x, 0).coeffs(), &vec![-1, -2, -3, -4]);
    assert_eq!(polyinv(&x, 5).coeffs(), &vec![-1, -2, 2, 1]);
    assert_eq!(polysub(&x, &y, 0, ring(4)).coeffs(), &vec![1, 1, 3, 4]);
}

#[test]
fn centred_coefficients() {
    assert_eq!(mod_coeffs(Poly::new(vec![7, -7, 2, 3]), 5).coeffs(), &vec![2, -2, 2, -2]);
    assert_eq!(mod_coeffs(Poly::new(vec![5, 10]), 5).coeffs(), &Vec::<i64>::new());
    assert_eq!(scale_message(&Poly::new(vec![1, 2, 255]), 1 << 20, 256).coeffs(), &vec![4096, 8192, -4096]);
    assert_eq!(nearest_int(7, 2), 4);
    assert_eq!(nearest_int(-7, 2), -3);
    assert_eq!(nearest_int(10, 4), 3);
    assert_eq!(nearest_int(-5, 4), -1);
    assert_eq!(nearest_int(-6, 4), -1);
    assert_eq!(nearest_int(-7, 4), -2);
    assert_eq!(nearest_int(5, 4), 1);
    assert_eq!(nearest_int(5, -4), -1);
    assert_eq!(nearest_int(-6, -4), 2);
    assert_eq!(nearest_int(7, -2), -3);
}

#[test]
fn random_polynomials_stay_in_range() {
    let b = gen_binary_poly(64, Some(1));
    assert!(b.coeffs().len() <= 64 && b.coeffs().iter().all(|c| *c == 0 || *c == 1));
    let t = gen_ternary_poly(64, Some(2));
    assert!(t.coeffs().len() <= 64 && t.coeffs().iter().all(|c| (-1..=1).contains(c)));
    let u = gen_uniform_poly(64, 97, Some(3));
    assert!(u.coeffs().len() <= 64 && u.coeffs().iter().all(|c| (0..97).contains(c)));
    assert!(u.coeffs().iter().any(|c| *c > 1));
    assert_eq!(gen_uniform_poly(64, 97, Some(3)).coeffs(), u.coeffs());
    assert_eq!(generate_key().len(), 32);
    assert_eq!(generate_iv().len(), 16);
}

#[test]
fn default_parameters() {
    let p = Parameters::default();
    assert_eq!((p.n, p.q, p.t), (512, 1048576, 256));
    assert_eq!(p.f.coeffs().len(), 513);
    assert_eq!(p.f.coeffs()[0], 1);
    assert_eq!(p.f.coeffs()[512], 1);
}

#[test]
fn ring_lwe_round_trip() {
    let p = small_params();
    let (public, secret) = keygen(&p, Some(11));
    let message = Poly::new(vec![72, 105, 0, 127, 1]);
    let cipher = encrypt(&public, &message, &p, Some(12));
    let plain = decrypt(&secret, &[cipher.0, cipher.1], &p);
    assert_eq!(plain.coeffs(), message.coeffs());
}

#[test]
fn ring_lwe_round_trip_high_coefficients() {
    let p = small_params();
    let (public, secret) = keygen(&p, Some(21));
    let message = Poly::new(vec![200, 255, 128, 0, 254]);
    let cipher = encrypt(&public, &message, &p, Some(22));
    let plain = decrypt(&secret, &[cipher.0, cipher.1], &p);
    assert_eq!(plain.coeffs(), message.coeffs());
}

#[test]
fn seeded_draws_repeat() {
    assert_eq!(gen_ternary_poly(64, Some(7)).coeffs(), gen_ternary_poly(64, Some(7)).coeffs());
    assert_eq!(gen_binary_poly(64, Some(7)).coeffs(), gen_binary_poly(64, Some(7)).coeffs());
    assert_ne!(gen_uniform_poly(64, 1000, Some(7)).coeffs(), gen_uniform_poly(64, 1000, Some(8)).coeffs());
    let p = small_params();
    let k1 = keygen_string(&p, Some(3));
    let k2 = keygen_string(&p, Some(3));
    assert_eq!((k1.public, k1.secret), (k2.public, k2.secret));
    let (public, secret) = keygen(&p, Some(3));
    let (_, again) = keygen(&p, Some(3));
    assert_eq!(secret.coeffs(), again.coeffs());
    assert_eq!(public[1].coeffs(), gen_uniform_poly(16, p.q, Some(3)).coeffs());
    assert_eq!(secret.coeffs(), gen_ternary_poly(16, Some(3)).coeffs());
}

#[test]
fn adding_the_inverse_gives_zero() {
    let f = ring(4);
    let x = Poly::new(vec![3, -2, 7, 1]);
    assert_eq!(polyadd(&x, &polyinv(&x, 11), 11, &f).coeffs(), &Vec::<i64>::new());
    let y = Poly::new(vec![0, 5, 1]);
    assert_eq!(polymul(&x, &y, 11, &f).coeffs(), polymul(&y, &x, 11, &f).coeffs());
    let long = Poly::new(vec![1, 2, 3, 4, 5, 6, 7]);
    assert_eq!(polymul(&long, &y, 11, &f).coeffs(), polymul(&y, &long, 11, &f).coeffs());
}

#[test]
fn key_strings_round_trip() {
    let p = Parameters::default();
    let keys = keygen_string(&p, Some(5));
    let numbers: Vec<i64> = keys.public.split(',').map(|x| x.parse().unwrap()).collect();
    assert_eq!(numbers.len(), 2 * p.n);
    let message = b"sixteen byte iv!";
    let cipher = encrypt_string(&keys.public, message, &p, Some(6));
    assert_eq!(cipher.split(',').count(), 2 * p.n);
    assert_eq!(decrypt_string(&keys.secret, &cipher, &p), message.to_vec());
    assert_eq!(try_decrypt_string(&keys.secret, &cipher, &p), Some(message.to_vec()));
    let key = [7u8; 32];
    let cipher = encrypt_string(&keys.public, &key, &p, None);
    assert_eq!(decrypt_string(&keys.secret, &cipher, &p), key.to_vec());
}

#[test]
fn encrypted_text_is_base64_of_the_bytes() {
    let p = Parameters::default();
    let keys = keygen_string(&p, Some(8));
    let direct = encrypt_encoded(&keys.public, "aGk=", &p, Some(9));
    assert_eq!(decrypt_string(&keys.secret, &direct, &p), b"hi".to_vec());
}

#[test]
fn undecryptable_text_is_refused() {
    let p = Parameters::default();
    let keys = keygen_string(&p, Some(5));
    assert_eq!(try_decrypt_string(&keys.secret, &"1,x,3".to_string(), &p), None);
    assert_eq!(try_decrypt_string(&keys.secret, &"1,2,3".to_string(), &p), Some(Vec::new()));
}

#[test]
fn aes_round_trip() {
    let key = [3u8; 32];
    let iv = [9u8; 16];
    let c = encrypt_aes("{\"command\":\"ENROLL\"}", &key, &iv).unwrap();
    assert_eq!(c.len(), 32);
    assert_ne!(&c[..], "{\"command\":\"ENROLL\"}".as_bytes());
    assert_eq!(decrypt_aes(&c, &key, &iv), Some("{\"command\":\"ENROLL\"}".to_string()));
    assert_eq!(encrypt_aes("", &key, &iv).unwrap().len(), 16);
    assert_eq!(decrypt_aes(&c[..15], &key, &iv), None);
}

#[test]
fn outgoing_requests() {
    let key = "00".repeat(32);
    let iv = "0f".repeat(16);
    assert!(usable_aes_texts(&key, &iv));
    assert!(!usable_aes_texts("abc", &iv));
    assert!(!usable_aes_texts(&"zz".repeat(32), &iv));
    let plain = outgoing_request("{}", None, Some(&iv), "ENROLL").unwrap();
    assert_eq!(plain, b"{}".to_vec());
    let plain = outgoing_request("{}", Some(&key), Some(&iv), "KEY_EXCHANGE").unwrap();
    assert_eq!(plain, b"{}".to_vec());
    let sealed = outgoing_request("{}", Some(&key), Some(&iv), "ENROLL").unwrap();
    assert_eq!(sealed.len(), 16);
    assert_eq!(decrypt_aes(&sealed, &[0u8; 32], &[15u8; 16]), Some("{}".to_string()));
}

#[test]
fn key_exchange_hands_over_the_key() {
    let p = Parameters::default();
    let port_keys = keygen_string(&p, Some(21));
    assert!(usable_public_key(&port_keys.public, &p));
    assert!(!usable_public_key(&"1,2,3".to_string(), &p));
    let exchange = key_exchange_for(&port_keys.public, &p);
    assert_eq!(exchange.reply.status, "success");
    assert_eq!(exchange.aes_key_hex.len(), 64);
    assert_eq!(exchange.iv_hex.len(), 32);
    assert!(exchange.aes_key_hex.chars().all(|c| c.is_ascii_hexdigit() && !c.is_ascii_uppercase()));
    let (key_hex, iv_hex) = stored_keys(&exchange.reply, &port_keys.secret, &p).unwrap();
    let key: Vec<u8> = (0..32).map(|i| u8::from_str_radix(&exchange.aes_key_hex[2 * i..2 * i + 2], 16).unwrap()).collect();
    let decrypted_key = {
        let k = exchange.reply.encrypted_aes_key.clone().unwrap();
        decrypt_string(&port_keys.secret, &k, &p)
    };
    assert_eq!(decrypted_key, key);
    assert_eq!(key_hex, exchange.aes_key_hex);
    assert_eq!(iv_hex, exchange.iv_hex);
    assert!(usable_aes_texts(&key_hex, &iv_hex));
    assert_eq!(stored_keys(&DatabaseReply::error(), &port_keys.secret, &p), None);
    assert_eq!(stored_keys(&DatabaseReply::success(0), &port_keys.secret, &p), None);
}

#[test]
fn central_actions_and_replies() {
    let mut req = DatabaseRequest::bare("INIT_REQUEST");
    req.location = Some("Gate1".to_string());
    match central_action(&req) {
        CentralAction::AddCheckpoint { location, authorized_roles } => {
            assert_eq!(location.as_deref(), Some("Gate1"));
            assert_eq!(authorized_roles, None);
        }
        other => panic!("unexpected action {:?}", other),
    }
    assert!(matches!(central_action(&DatabaseRequest::bare("NOPE")), CentralAction::Reject));
    let r = init_reply_for(Some(4_294_967_297));
    assert_eq!(r.checkpoint_id, Some(1));
    assert_eq!(init_reply_for(None).status, "error");
    let w = WorkerRecord {
        fingerprint: "12345".to_string(),
        allowed_locations: "Gate1".to_string(),
        name: "Ann".to_string(),
        role_id: 1,
    };
    let r = authenticate_reply_for(None, 5, true, Some(("Gate1".to_string(), "Admin".to_string())), Some(w));
    assert_eq!((r.status.as_str(), r.checkpoint_id, r.worker_id), ("success", Some(0), Some(5)));
    assert_eq!(r.authorized_roles.as_deref(), Some("Admin"));
    assert_eq!(r.location.as_deref(), Some("Gate1"));
    assert_eq!(authenticate_reply_for(Some(1), 5, false, None, None).status, "error");
    assert_eq!(enroll_reply_for(false, Some(12)).worker_id, Some(12));
    assert_eq!(enroll_reply_for(true, Some(12)).status, "error");
    let u = update_reply_for(Some(1), Some("Gate2".to_string()), Some(3));
    assert_eq!((u.allowed_locations.as_deref(), u.role_id), (Some("Gate2"), Some(3)));
    assert_eq!(update_reply_for(Some(0), None, None).status, "error");
    assert_eq!(delete_reply_for(Some(2)).worker_id, Some(0));
    assert_eq!(delete_reply_for(None).status, "error");
}
