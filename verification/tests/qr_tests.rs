use base64::Engine;
use wifi_voucher::qr_generator::QrGenerator;
use wifi_voucher::templates::wifi_payload;

#[test]
fn test_generate_qr_base64() {
    let generator = QrGenerator::new();
    let result = generator.generate_qr_base64("TEST");
    assert!(result.is_ok());

    let base64 = result.unwrap();
    assert!(!base64.is_empty());

    // Check that it's valid base64
    assert!(base64::engine::general_purpose::STANDARD.decode(&base64).is_ok());
}

#[test]
fn test_generate_wifi_qr() {
    let generator = QrGenerator::new();
    let wifi_data = "WIFI:T:WPA;S:TestNetwork;P:password123;H:false;;";
    let result = generator.generate_qr_base64(wifi_data);
    assert!(result.is_ok());
}

#[test]
fn test_generated_image_is_png() {
    // the decoded payload must be a PNG stream, so the pixel data really
    // went through the image encoder
    let generator = QrGenerator::new();
    let b64 = generator.generate_qr_base64("PNG-CHECK").unwrap();
    let bytes = base64::engine::general_purpose::STANDARD.decode(&b64).unwrap();
    assert!(bytes.len() > 8);
    assert_eq!(&bytes[0..8], &[0x89u8, 0x50, 0x4E, 0x47, 0x0D, 0x0A, 0x1A, 0x0A]);
}

#[test]
fn test_wifi_payload_exact() {
    let payload = wifi_payload("TestNetwork", "password123");
    assert_eq!(payload, "WIFI:T:WPA;S:TestNetwork;P:password123;H:false;;");
}

#[test]
fn test_oversized_payload_is_rejected() {
    // lowercase text is stored in byte mode, and the largest standard symbol
    // holds fewer than 3000 bytes at the medium error-correction level
    let generator = QrGenerator::new();
    let payload = "x".repeat(3000);
    let result = generator.generate_qr_base64(&payload);
    assert!(matches!(
        result,
        Err(wifi_voucher::qr_generator::QrGeneratorError::QrCodeGeneration(_))
    ));
}
