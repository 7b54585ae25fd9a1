use den::docker::{pack_upload, unpack_download};
use den::tarball::claims_overrun;

fn checksummed(mut h: Vec<u8>) -> Vec<u8> {
    for b in &mut h[148..156] {
        *b = b' ';
    }
    let sum: u32 = h.iter().map(|b| *b as u32).sum();
    h[148..156].copy_from_slice(format!("{sum:06o}\0 ").as_bytes());
    h
}

/// A GNU header of a type, with a size field.
fn header(kind: u8, size: &[u8; 12]) -> Vec<u8> {
    let mut h = vec![0u8; 512];
    h[0] = b'f';
    h[124..136].copy_from_slice(size);
    h[156] = kind;
    h[257..265].copy_from_slice(b"ustar  \0");
    checksummed(h)
}

/// A GNU header of a sparse file with further headers to come.
fn extended_sparse(size: &[u8; 12]) -> Vec<u8> {
    let mut h = header(b'S', size);
    h[482] = 1;
    checksummed(h)
}

fn octal(n: usize) -> [u8; 12] {
    let mut f = [0u8; 12];
    f[..11].copy_from_slice(format!("{n:011o}").as_bytes());
    f
}

const HUGE: [u8; 12] = [0x80, 0, 0, 0, 0xFF, 0xFF, 0xFF, 0xFF, 0xFF, 0xFF, 0xFC, 0];

fn member(kind: u8, body: &[u8]) -> Vec<u8> {
    let mut out = header(kind, &octal(body.len()));
    out.extend_from_slice(body);
    out.resize(out.len().div_ceil(512) * 512, 0);
    out
}

fn refused(archive: &Vec<u8>) {
    assert!(claims_overrun(archive));
    let e = unpack_download("/x", archive).unwrap_err();
    assert_eq!(e.message(), "tar entry: member claims more than can be read");
    assert_eq!(e.status(), 500);
}

#[test]
fn a_sparse_file_with_an_absurd_size_is_refused() {
    let mut a = extended_sparse(&HUGE);
    a.extend(vec![7u8; 512]);
    refused(&a);
    // behind members that describe it, too
    let mut b = member(b'L', b"a long name\0");
    b.extend(member(b'K', &[b'k'; 513]));
    b.extend(a);
    refused(&b);
}

#[test]
fn attributes_can_claim_too_much_as_well() {
    let mut a = member(b'x', b"29 size=18446744073709550592\n");
    a.extend(extended_sparse(&octal(0)));
    a.extend(vec![0u8; 512]);
    refused(&a);
    // a short number does no harm: the archive is read, and found wanting
    let mut b = member(b'x', b"10 size=7\n");
    b.extend(extended_sparse(&octal(0)));
    b.extend(vec![0u8; 512]);
    assert!(!claims_overrun(&b));
    assert!(unpack_download("/x", &b).unwrap_err().message().starts_with("tar entry: "));
}

#[test]
fn a_gap_that_no_vector_holds_is_refused() {
    let mut h = header(b'S', &octal(0));
    h[483..495].copy_from_slice(&HUGE);
    refused(&checksummed(h));
}

#[test]
fn an_absurd_size_of_a_regular_file_is_only_short() {
    let mut a = header(b'0', &HUGE);
    a.extend(vec![7u8; 512]);
    assert!(!claims_overrun(&a));
    assert_eq!(unpack_download("/x", &a).unwrap(), vec![7u8; 512]);
}

#[test]
fn a_real_sparse_file_is_read() {
    // 512 bytes of data behind a gap of 512, and one further, empty header
    let mut h = header(b'S', &octal(512));
    h[386..398].copy_from_slice(&octal(512));
    h[398..410].copy_from_slice(&octal(512));
    h[482] = 1;
    h[483..495].copy_from_slice(&octal(1024));
    let mut a = checksummed(h);
    a.extend(vec![0u8; 512]);
    a.extend(vec![9u8; 512]);
    assert!(!claims_overrun(&a));
    let content = unpack_download("/x", &a).unwrap();
    assert_eq!(content, [vec![0u8; 512], vec![9u8; 512]].concat());
}

#[test]
fn contents_are_never_taken_for_headers() {
    // an uploaded file that is itself such an archive
    let mut evil = extended_sparse(&HUGE);
    evil.extend(vec![7u8; 512]);
    let long = format!("/home/sandbox/{}", "n".repeat(300));
    for path in ["/home/sandbox/a.tar", long.as_str()] {
        let u = pack_upload(path, &evil).unwrap();
        assert!(!claims_overrun(&u.archive));
        assert_eq!(unpack_download(path, &u.archive).unwrap(), evil);
    }
    let mut b = member(b'L', &evil);
    b.extend(member(b'0', b"content"));
    assert!(!claims_overrun(&b));
    assert_eq!(unpack_download("/x", &b).unwrap(), b"content".to_vec());
}

#[test]
fn short_and_odd_archives() {
    assert!(!claims_overrun(&vec![]));
    assert!(!claims_overrun(&vec![0u8; 511]));
    assert!(!claims_overrun(&vec![0u8; 1024]));
    assert!(!claims_overrun(&header(b'L', b"not a number")));
    assert!(!claims_overrun(&header(b'L', &HUGE)));
    assert!(claims_overrun(&header(b'L', b"7\xC2\xA0\0\0\0\0\0\0\0\0\0")));
    // a padded number and one with a sign are read as they are
    let mut a = header(b'L', b"  +12 \t\0\0\0\0\0");
    a.extend(vec![0u8; 512]);
    a.extend(extended_sparse(&HUGE));
    a.extend(vec![0u8; 512]);
    refused(&a);
}
